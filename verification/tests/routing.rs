use graph_store::api::route::{chars_of, route, Method, Route};

#[test]
fn writes_are_named_by_their_whole_path() {
    assert_eq!(route(Method::Post, "/add_context"), Route::AddContext);
    assert_eq!(route(Method::Post, "/add_node"), Route::AddNode);
    assert_eq!(route(Method::Post, "/add_edge"), Route::AddEdge);
    assert_eq!(route(Method::Post, "/add_context/"), Route::NotFound);
    assert_eq!(route(Method::Post, "/add_nodes"), Route::NotFound);
    assert_eq!(route(Method::Post, "add_edge"), Route::NotFound);
    assert_eq!(route(Method::Post, "/ADD_NODE"), Route::NotFound);
    assert_eq!(route(Method::Post, ""), Route::NotFound);
}

#[test]
fn method_must_fit_the_path() {
    assert_eq!(route(Method::Get, "/add_context"), Route::NotFound);
    assert_eq!(route(Method::Other, "/add_node"), Route::NotFound);
    assert_eq!(route(Method::Post, "/get_context/1"), Route::NotFound);
    assert_eq!(route(Method::Other, "/get_node/1"), Route::NotFound);
    assert_eq!(route(Method::Post, "/get_edge/1/2"), Route::NotFound);
    assert_eq!(route(Method::Get, "/"), Route::NotFound);
    assert_eq!(route(Method::Get, ""), Route::NotFound);
    assert_eq!(route(Method::Get, "/get_context"), Route::NotFound);
    assert_eq!(route(Method::Get, "/get_nodes/1"), Route::NotFound);
}

#[test]
fn lookups_by_one_identity() {
    assert_eq!(route(Method::Get, "/get_context/1"), Route::GetContext(1));
    assert_eq!(route(Method::Get, "/get_context/0"), Route::GetContext(0));
    assert_eq!(route(Method::Get, "/get_node/10"), Route::GetNode(10));
    assert_eq!(route(Method::Get, "/get_node/007"), Route::GetNode(7));
    assert_eq!(route(Method::Get, "/get_node/+5"), Route::GetNode(5));
    assert_eq!(route(Method::Get, "/get_node/4294967295"), Route::GetNode(u32::MAX));
    assert_eq!(route(Method::Get, "/get_node/0004294967295"), Route::GetNode(u32::MAX));
}

#[test]
fn identities_that_are_no_numbers() {
    assert_eq!(route(Method::Get, "/get_context/"), Route::InvalidId);
    assert_eq!(route(Method::Get, "/get_context/abc"), Route::InvalidId);
    assert_eq!(route(Method::Get, "/get_node/-1"), Route::InvalidId);
    assert_eq!(route(Method::Get, "/get_node/+"), Route::InvalidId);
    assert_eq!(route(Method::Get, "/get_node/++1"), Route::InvalidId);
    assert_eq!(route(Method::Get, "/get_node/1+"), Route::InvalidId);
    assert_eq!(route(Method::Get, "/get_node/ 1"), Route::InvalidId);
    assert_eq!(route(Method::Get, "/get_node/1 "), Route::InvalidId);
    assert_eq!(route(Method::Get, "/get_node/1_000"), Route::InvalidId);
    assert_eq!(route(Method::Get, "/get_node/1/"), Route::InvalidId);
    assert_eq!(route(Method::Get, "/get_node/1/2"), Route::InvalidId);
    assert_eq!(route(Method::Get, "/get_node/0x10"), Route::InvalidId);
    assert_eq!(route(Method::Get, "/get_node/4294967296"), Route::InvalidId);
    assert_eq!(route(Method::Get, "/get_node/99999999999999999999999999"), Route::InvalidId);
    assert_eq!(route(Method::Get, "/get_node/٣"), Route::InvalidId);
    assert_eq!(route(Method::Get, "/get_node/1é"), Route::InvalidId);
}

#[test]
fn a_repeated_prefix_is_skipped() {
    assert_eq!(route(Method::Get, "/get_context//get_context/5"), Route::GetContext(5));
    assert_eq!(route(Method::Get, "/get_node//get_node//get_node/12"), Route::GetNode(12));
    assert_eq!(route(Method::Get, "/get_node//get_node/"), Route::InvalidId);
    assert_eq!(route(Method::Get, "/get_node//get_context/5"), Route::InvalidId);
    assert_eq!(route(Method::Get, "/get_edge//get_edge/1/2"), Route::GetEdge(1, 2));
}

#[test]
fn edge_lookups() {
    assert_eq!(route(Method::Get, "/get_edge/1/2"), Route::GetEdge(1, 2));
    assert_eq!(route(Method::Get, "/get_edge/0/0"), Route::GetEdge(0, 0));
    assert_eq!(route(Method::Get, "/get_edge/+1/02"), Route::GetEdge(1, 2));
    assert_eq!(
        route(Method::Get, "/get_edge/4294967295/4294967295"),
        Route::GetEdge(u32::MAX, u32::MAX)
    );
    assert_eq!(route(Method::Get, "/get_edge/1/x"), Route::InvalidIds);
    assert_eq!(route(Method::Get, "/get_edge/x/1"), Route::InvalidIds);
    assert_eq!(route(Method::Get, "/get_edge//"), Route::InvalidIds);
    assert_eq!(route(Method::Get, "/get_edge/1/"), Route::InvalidIds);
    assert_eq!(route(Method::Get, "/get_edge//2"), Route::InvalidIds);
    assert_eq!(route(Method::Get, "/get_edge/1/4294967296"), Route::InvalidIds);
    assert_eq!(route(Method::Get, "/get_edge/-1/2"), Route::InvalidIds);
    assert_eq!(route(Method::Get, "/get_edge/"), Route::InvalidEdgePath);
    assert_eq!(route(Method::Get, "/get_edge/1"), Route::InvalidEdgePath);
    assert_eq!(route(Method::Get, "/get_edge/1/2/3"), Route::InvalidEdgePath);
    assert_eq!(route(Method::Get, "/get_edge/1/2/"), Route::InvalidEdgePath);
    assert_eq!(route(Method::Get, "/get_edge/abc"), Route::InvalidEdgePath);
}

#[test]
fn identities_are_read_as_the_standard_library_reads_them() {
    let samples = [
        "", "0", "1", "9", "10", "42", "+42", "+0", "-0", "-42", "+", "-", "++1", "+-1", "00", "0000000000000",
        "4294967294", "4294967295", "4294967296", "4294967300", "42949672950", "+4294967295",
        "18446744073709551615", "18446744073709551616", "184467440737095516150", "1a", "a1", " 1", "1 ",
        "1.0", "1e3", "١", "１", "1\u{0}", "٣٤", "1,000", "0b1", "9999999999", "0999999999",
    ];
    for s in samples.iter() {
        let path = format!("/get_node/{}", s);
        let expected = match s.parse::<u32>() {
            Ok(id) => Route::GetNode(id),
            Err(_) => Route::InvalidId,
        };
        assert_eq!(route(Method::Get, &path), expected, "path {:?}", path);
    }
}

#[test]
fn every_identity_near_the_limits_round_trips() {
    for id in (0..2000u32).chain(u32::MAX - 2000..=u32::MAX) {
        assert_eq!(route(Method::Get, &format!("/get_context/{}", id)), Route::GetContext(id));
        assert_eq!(
            route(Method::Get, &format!("/get_edge/{}/{}", id, u32::MAX - id)),
            Route::GetEdge(id, u32::MAX - id)
        );
    }
}

#[test]
fn chars_of_lists_the_characters() {
    assert_eq!(chars_of(""), Vec::<char>::new());
    assert_eq!(chars_of("a/b"), vec!['a', '/', 'b']);
    assert_eq!(chars_of("né"), vec!['n', 'é']);
}
