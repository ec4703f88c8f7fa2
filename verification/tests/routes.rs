use todo_service::routing::match_route;
use todo_service::routing::parse_i32;
use todo_service::routing::parse_u32;
use todo_service::routing::Method;
use todo_service::routing::Route;

#[test]
fn fixed_routes_resolve_exactly() {
    assert_eq!(match_route(Method::Get, "/root"), Route::Root);
    assert_eq!(match_route(Method::Post, "/user/details"), Route::UserDetails);
    assert_eq!(match_route(Method::Get, "/todos/all"), Route::TodosAll);
    assert_eq!(match_route(Method::Post, "/todo/create"), Route::TodoCreate);
}

#[test]
fn parameterised_routes_carry_their_ids() {
    assert_eq!(match_route(Method::Get, "/user/42"), Route::UserById(42));
    assert_eq!(
        match_route(Method::Put, "/todo/7/mark/completed"),
        Route::TodoMarkCompleted(7)
    );
    assert_eq!(match_route(Method::Delete, "/todo/7/delete"), Route::TodoDelete(7));
}

#[test]
fn known_paths_never_fall_through_to_the_static_route() {
    assert_ne!(match_route(Method::Get, "/todos/all"), Route::StaticFile);
    assert_ne!(match_route(Method::Get, "/root"), Route::StaticFile);
    assert_ne!(match_route(Method::Put, "/todo/1/mark/completed"), Route::StaticFile);
}

#[test]
fn unmatched_reads_fall_through_to_the_static_route() {
    assert_eq!(match_route(Method::Get, "/"), Route::StaticFile);
    assert_eq!(match_route(Method::Get, "/index.html"), Route::StaticFile);
    assert_eq!(match_route(Method::Get, "/assets/site.css"), Route::StaticFile);
    assert_eq!(match_route(Method::Get, "/user/1/extra"), Route::StaticFile);
    assert_eq!(match_route(Method::Get, "/todo//delete"), Route::StaticFile);
}

#[test]
fn wrong_methods_are_refused_rather_than_served() {
    assert_eq!(match_route(Method::Post, "/root"), Route::MethodNotAllowed);
    assert_eq!(match_route(Method::Get, "/user/details"), Route::MethodNotAllowed);
    assert_eq!(match_route(Method::Post, "/todos/all"), Route::MethodNotAllowed);
    assert_eq!(match_route(Method::Get, "/todo/create"), Route::MethodNotAllowed);
    assert_eq!(match_route(Method::Post, "/user/42"), Route::MethodNotAllowed);
    assert_eq!(match_route(Method::Get, "/todo/7/mark/completed"), Route::MethodNotAllowed);
    assert_eq!(match_route(Method::Put, "/todo/7/delete"), Route::MethodNotAllowed);
    assert_eq!(match_route(Method::Post, "/not/a/route"), Route::MethodNotAllowed);
}

#[test]
fn malformed_ids_are_bad_requests() {
    assert_eq!(match_route(Method::Get, "/user/abc"), Route::BadRequest);
    assert_eq!(match_route(Method::Get, "/user/4294967296"), Route::BadRequest);
    assert_eq!(match_route(Method::Put, "/todo/abc/mark/completed"), Route::BadRequest);
    assert_eq!(match_route(Method::Delete, "/todo/2147483648/delete"), Route::BadRequest);
}

#[test]
fn negative_todo_ids_parse_like_the_row_id_type() {
    assert_eq!(match_route(Method::Delete, "/todo/-3/delete"), Route::TodoDelete(-3));
    assert_eq!(
        match_route(Method::Put, "/todo/-2147483648/mark/completed"),
        Route::TodoMarkCompleted(i32::MIN)
    );
}

#[test]
fn parse_u32_accepts_exactly_fitting_digit_runs() {
    assert_eq!(parse_u32("0"), Some(0));
    assert_eq!(parse_u32("42"), Some(42));
    assert_eq!(parse_u32("007"), Some(7));
    assert_eq!(parse_u32("4294967295"), Some(u32::MAX));
    assert_eq!(parse_u32("4294967296"), None);
    assert_eq!(parse_u32(""), None);
    assert_eq!(parse_u32("12a"), None);
    assert_eq!(parse_u32("-1"), None);
}

#[test]
fn parse_i32_accepts_signed_fitting_digit_runs() {
    assert_eq!(parse_i32("0"), Some(0));
    assert_eq!(parse_i32("2147483647"), Some(i32::MAX));
    assert_eq!(parse_i32("2147483648"), None);
    assert_eq!(parse_i32("-1"), Some(-1));
    assert_eq!(parse_i32("-2147483648"), Some(i32::MIN));
    assert_eq!(parse_i32("-2147483649"), None);
    assert_eq!(parse_i32("-"), None);
    assert_eq!(parse_i32("1-2"), None);
}
