use todo_service::http::Body;
use todo_service::static_files::get_mime_type;
use todo_service::static_files::resolve_directory;
use todo_service::static_files::serve_static_file;
use todo_service::static_files::static_file_target;
use todo_service::user::fetch_user_by_id;
use todo_service::user::fetch_user_by_id_post_method;
use todo_service::user::root;
use todo_service::user::UserId;

#[test]
fn mime_table_covers_the_known_extensions() {
    assert_eq!(get_mime_type("./static/page.html"), "text/html");
    assert_eq!(get_mime_type("./static/site.css"), "text/css");
    assert_eq!(get_mime_type("./static/app.js"), "application/javascript");
    assert_eq!(get_mime_type("./static/logo.png"), "image/png");
    assert_eq!(get_mime_type("./static/photo.jpg"), "image/jpeg");
    assert_eq!(get_mime_type("./static/photo.jpeg"), "image/jpeg");
    assert_eq!(get_mime_type("./static/anim.gif"), "image/gif");
}

#[test]
fn unknown_or_missing_extensions_get_the_generic_type() {
    assert_eq!(get_mime_type("./static/archive.xyz"), "application/octet-stream");
    assert_eq!(get_mime_type("./static/README"), "application/octet-stream");
    assert_eq!(get_mime_type("./static/.html"), "application/octet-stream");
    assert_eq!(get_mime_type("./static/archive.tar.gz"), "application/octet-stream");
    assert_eq!(get_mime_type("./static/oddly."), "application/octet-stream");
    assert_eq!(get_mime_type("./static/v1.2/file"), "application/octet-stream");
}

#[test]
fn the_request_path_lands_under_the_asset_root() {
    assert_eq!(static_file_target("/index.html"), "./static/index.html");
    assert_eq!(static_file_target("/"), "./static/");
    assert_eq!(static_file_target("/assets/site.css"), "./static/assets/site.css");
}

#[test]
fn directories_resolve_to_their_index_file() {
    assert_eq!(
        resolve_directory("./static/docs".to_string(), true),
        "./static/docs/index.html"
    );
    assert_eq!(
        resolve_directory("./static/docs/".to_string(), true),
        "./static/docs/index.html"
    );
    assert_eq!(
        resolve_directory("./static/docs/a.html".to_string(), false),
        "./static/docs/a.html"
    );
}

#[test]
fn readable_files_are_served_with_their_bytes_and_type() {
    let bytes = vec![1u8, 2, 3, 255];
    let reply = serve_static_file("./static/data.bin", Some(bytes.clone()));
    assert_eq!(reply.status, 200);
    match reply.body {
        Body::File(ct, b) => {
            assert_eq!(ct, "application/octet-stream");
            assert_eq!(b, bytes);
        }
        _ => panic!("expected a file body"),
    }
}

#[test]
fn a_directory_with_an_index_serves_it_as_html() {
    let target = resolve_directory(static_file_target("/docs"), true);
    assert_eq!(target, "./static/docs/index.html");
    let page = b"<html></html>".to_vec();
    let reply = serve_static_file(&target, Some(page.clone()));
    assert_eq!(reply.status, 200);
    match reply.body {
        Body::File(ct, b) => {
            assert_eq!(ct, "text/html");
            assert_eq!(b, page);
        }
        _ => panic!("expected a file body"),
    }
}

#[test]
fn an_unreadable_path_is_not_found() {
    let reply = serve_static_file("./static/docs/index.html", None);
    assert_eq!(reply.status, 404);
    match reply.body {
        Body::Text(t) => assert_eq!(t, "File not found"),
        _ => panic!("expected a text body"),
    }
}

#[test]
fn user_stubs_echo_the_id_with_the_placeholder_name() {
    let reply = fetch_user_by_id(7);
    assert_eq!(reply.status, 200);
    match reply.body {
        Body::UserItem(u) => {
            assert_eq!(u.id, 7);
            assert_eq!(u.username, "Elon Musk");
        }
        _ => panic!("expected a user body"),
    }
    let reply = fetch_user_by_id_post_method(&UserId { user_id: 31 });
    match reply.body {
        Body::UserItem(u) => {
            assert_eq!(u.id, 31);
            assert_eq!(u.username, "Elon Musk");
        }
        _ => panic!("expected a user body"),
    }
}

#[test]
fn the_root_endpoint_greets() {
    let reply = root();
    assert_eq!(reply.status, 200);
    match reply.body {
        Body::Text(t) => assert_eq!(t, "Hello from Axum server"),
        _ => panic!("expected a text body"),
    }
}
