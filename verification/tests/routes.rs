use unkvoid::json::Json;
use unkvoid::routes::{resolve, route_table, segment, Method};

fn params(members: Vec<(&str, Json)>) -> Json {
    Json::Object(members.into_iter().map(|(name, value)| (name.to_string(), value)).collect())
}

fn text(value: &str) -> Json {
    Json::Text(value.to_string())
}

#[test]
fn a_route_is_filled_from_its_parameters() {
    let (method, path) =
        resolve("kickMember", &params(vec![("server", Json::Integer(7)), ("user", Json::Integer(42))])).expect("route");

    assert_eq!(method, Method::Delete);
    assert_eq!(path, "/api/servers/7/members/42");
}

#[test]
fn a_missing_or_hostile_parameter_never_reaches_the_server() {
    assert!(resolve("kickMember", &params(vec![("server", Json::Integer(7))])).is_none(), "faltou o user");
    assert!(resolve("deleteChannel", &params(vec![("channel", text("../me"))])).is_none());
    assert!(resolve("deleteChannel", &params(vec![("channel", text("a/b"))])).is_none());
    assert!(resolve("somethingElse", &params(vec![])).is_none());
}

#[test]
fn a_query_rides_along_with_the_path() {
    let (_, path) =
        resolve("messages", &params(vec![("channel", text("01abc")), ("query", text("before=90"))])).expect("route");

    assert_eq!(path, "/api/channels/01abc/messages?before=90");
}

#[test]
fn every_route_parses_and_every_name_is_unique() {
    let table = route_table();
    let mut names: Vec<&str> = table.iter().map(|(name, _, _)| *name).collect();

    names.sort_unstable();
    names.dedup();

    assert_eq!(names.len(), table.len(), "nome repetido");

    for (name, _, path) in table {
        assert!(path.starts_with("/api/"), "{name}: {path}");
    }
}

#[test]
fn a_flag_is_no_piece_of_path_but_a_number_is() {
    assert_eq!(segment(&Json::Integer(-3)).as_deref(), Some("-3"));
    assert_eq!(segment(&Json::Float("1.5".into())), None);
    assert_eq!(segment(&Json::Bool(true)), None);
    assert_eq!(segment(&text("abc_1-2")).as_deref(), Some("abc_1-2"));
    assert_eq!(Method::Patch.name(), "PATCH");
}
