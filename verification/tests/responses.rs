use main_tourney_manager_gg::fetching::{complexity_count_text, shrink_per_page_from_complexity_error};
use main_tourney_manager_gg::fields::{parse_i32, parse_id_string, parse_u64, read_text};
use main_tourney_manager_gg::json::{Json, JsonNumber};
use main_tourney_manager_gg::startgg::{
    character_names_from, characters_variables, interpret_graphql_response, read_graphql_response,
    parse_videogame_characters, require_api_token, videogame_characters_from,
};
use main_tourney_manager_gg::model::GameCharacter;
use main_tourney_manager_gg::text::decimal_string;

fn jo(ms: Vec<(&str, Json)>) -> Json {
    Json::Object(ms.into_iter().map(|(k, v)| (k.to_string(), v)).collect())
}

fn js(x: &str) -> Json {
    Json::Str(x.to_string())
}

fn jn(x: u64) -> Json {
    Json::Number(JsonNumber::PosInt(x))
}

fn jneg(x: i64) -> Json {
    Json::Number(JsonNumber::NegInt(x))
}

#[test]
fn decimal_strings_match_to_string() {
    assert_eq!(decimal_string(0), "0");
    assert_eq!(decimal_string(7), "7");
    assert_eq!(decimal_string(1234567890), "1234567890");
    assert_eq!(decimal_string(u64::MAX), u64::MAX.to_string());
}

#[test]
fn u64_from_numbers_and_digit_strings() {
    assert_eq!(parse_u64(&jn(5)), Some(5));
    assert_eq!(parse_u64(&js("42")), Some(42));
    assert_eq!(parse_u64(&js("+7")), Some(7));
    assert_eq!(parse_u64(&js("18446744073709551615")), Some(u64::MAX));
}

#[test]
fn u64_rejects_other_values() {
    assert_eq!(parse_u64(&js("-1")), None);
    assert_eq!(parse_u64(&js("")), None);
    assert_eq!(parse_u64(&js("18446744073709551616")), None);
    assert_eq!(parse_u64(&js(" 4")), None);
    assert_eq!(parse_u64(&jneg(-3)), None);
    assert_eq!(parse_u64(&Json::Null), None);
    assert_eq!(parse_u64(&Json::Number(JsonNumber::Float)), None);
}

#[test]
fn i32_from_numbers_and_strings() {
    assert_eq!(parse_i32(&jneg(-5)), Some(-5));
    assert_eq!(parse_i32(&jn(3)), Some(3));
    assert_eq!(parse_i32(&js("-12")), Some(-12));
    assert_eq!(parse_i32(&js("+12")), Some(12));
    assert_eq!(parse_i32(&jn(2147483648)), None);
    assert_eq!(parse_i32(&js("2147483648")), None);
    assert_eq!(parse_i32(&js("-2147483648")), Some(i32::MIN));
    assert_eq!(parse_i32(&Json::Bool(true)), None);
}

#[test]
fn set_ids_are_kept_as_strings() {
    assert_eq!(parse_id_string(&js("preview_3393165_1_0")).as_deref(), Some("preview_3393165_1_0"));
    assert_eq!(parse_id_string(&jn(77)).as_deref(), Some("77"));
    assert_eq!(parse_id_string(&js("")), None);
    assert_eq!(parse_id_string(&jneg(-1)), None);
}

#[test]
fn text_is_trimmed_or_empty() {
    assert_eq!(read_text(Some(&js("  Pools  "))), "Pools");
    assert_eq!(read_text(Some(&jn(1))), "");
    assert_eq!(read_text(None), "");
}

#[test]
fn json_pointer_reads_nested_values() {
    let doc = jo(vec![("a", Json::Array(vec![jo(vec![("b~/c", jn(9))])]))]);
    assert_eq!(doc.pointer("/a/0/b~0~1c"), Some(&jn(9)));
    assert_eq!(doc.pointer(""), Some(&doc));
    assert_eq!(doc.pointer("/a/1"), None);
    assert_eq!(doc.pointer("/a/01"), None);
    assert_eq!(doc.pointer("a"), None);
}

#[test]
fn http_failure_is_reported_with_its_body() {
    let r = interpret_graphql_response(500, "oops", Err("unused".to_string()));
    assert_eq!(r, Err("start.gg returned HTTP 500: oops".to_string()));
}

#[test]
fn invalid_json_is_reported() {
    let r = interpret_graphql_response(200, "<html>", Err("expected value".to_string()));
    assert_eq!(r, Err("Invalid JSON from start.gg: expected value".to_string()));
}

#[test]
fn graphql_errors_are_joined() {
    let payload = jo(vec![(
        "errors",
        Json::Array(vec![jo(vec![("message", js("A"))]), jo(vec![("code", jn(1))])]),
    )]);
    let r = interpret_graphql_response(200, "", Ok(payload));
    assert_eq!(r, Err("start.gg GraphQL error: A | Unknown GraphQL error".to_string()));
}

#[test]
fn data_is_returned_when_there_is_no_error() {
    let data = jo(vec![("x", jn(1))]);
    let payload = jo(vec![("errors", Json::Array(vec![])), ("data", data.clone())]);
    assert_eq!(interpret_graphql_response(204, "", Ok(payload)), Ok(data));
}

#[test]
fn response_body_is_parsed_for_its_data() {
    let r = read_graphql_response(200, "{\"data\":{\"x\":1,\"y\":[true,null,-2,\"s\"]}}");
    let data = jo(vec![
        ("x", jn(1)),
        ("y", Json::Array(vec![Json::Bool(true), Json::Null, jneg(-2), js("s")])),
    ]);
    assert_eq!(r, Ok(data));
}

#[test]
fn response_body_that_is_not_json_is_reported() {
    let serde_error = serde_json::from_str::<serde_json::Value>("<html>").unwrap_err().to_string();
    let r = read_graphql_response(200, "<html>");
    assert_eq!(r, Err(format!("Invalid JSON from start.gg: {serde_error}")));
}

#[test]
fn response_with_failed_status_is_not_parsed() {
    let r = read_graphql_response(502, "<html>bad gateway</html>");
    assert_eq!(r, Err("start.gg returned HTTP 502: <html>bad gateway</html>".to_string()));
}

#[test]
fn response_errors_come_before_data() {
    let r = read_graphql_response(200, "{\"errors\":[{\"message\":\"Too complex\"}],\"data\":{}}");
    assert_eq!(r, Err("start.gg GraphQL error: Too complex".to_string()));
}

#[test]
fn response_without_data_is_an_error() {
    let r = read_graphql_response(200, "{\"errors\":[]}");
    assert_eq!(r, Err("start.gg response did not include a data field".to_string()));
}

#[test]
fn missing_data_is_an_error() {
    let r = interpret_graphql_response(200, "{}", Ok(jo(vec![])));
    assert_eq!(r, Err("start.gg response did not include a data field".to_string()));
}

#[test]
fn api_token_must_not_be_blank() {
    assert_eq!(require_api_token(" \t "), Err("Missing start.gg API token".to_string()));
    assert_eq!(require_api_token("abc"), Ok(()));
}

/// The page size scaled to a reported object count, as the desktop shell
/// computes it: the count read as a float, 80% of the cap.
fn scaled(count_text: &str, current: u32) -> Option<u32> {
    let actual: f64 = count_text.parse().ok()?;
    if actual <= 1000.0 {
        return None;
    }
    Some(((current as f64) * ((1000.0 / actual) * 0.8)).floor() as u32)
}

fn shrink_as_the_shell_does(error: &str, current: u32) -> Option<u32> {
    let s = complexity_count_text(error).and_then(|t| scaled(&t, current));
    shrink_per_page_from_complexity_error(error, s, current)
}

#[test]
fn complexity_count_text_is_cut_out_of_the_error() {
    let e = "Your query complexity is too high. A maximum of 1000 objects may be returned by each request. (actual: 2000)";
    assert_eq!(complexity_count_text(e).as_deref(), Some("2000"));
    assert_eq!(complexity_count_text("complexity is too high. (actual: 2000.) ").as_deref(), Some("2000"));
    assert_eq!(complexity_count_text("complexity is too high (actual: 1500.5)").as_deref(), Some("1500.5"));
    assert_eq!(complexity_count_text("actual: 1 actual: 2 complexity is too high").as_deref(), Some("2 complexity is too high"));
    assert_eq!(complexity_count_text(" complexity is too high ").as_deref(), Some("complexity is too high"));
    assert_eq!(complexity_count_text("timeout (actual: 5000)"), None);
}

#[test]
fn complexity_error_shrinks_the_page() {
    let e = "Your query complexity is too high. A maximum of 1000 objects may be returned by each request. (actual: 2000)";
    assert_eq!(shrink_as_the_shell_does(e, 128), Some(51));
    assert_eq!(shrink_as_the_shell_does("query complexity is too high (actual: 1001)", 100), Some(79));
    assert_eq!(shrink_as_the_shell_does("complexity is too high. (actual: 2000.)", 128), Some(51));
    assert_eq!(shrink_as_the_shell_does("complexity is too high (actual: 1500.5)", 128), Some(68));
    assert_eq!(shrink_as_the_shell_does("complexity is too high (actual: 1925)", 77), Some(31));
}

#[test]
fn complexity_error_shrinks_to_the_minimum() {
    let e = "complexity is too high (actual: 100000)";
    assert_eq!(shrink_as_the_shell_does(e, 128), Some(8));
    assert_eq!(shrink_as_the_shell_does("complexity is too high (actual: 1200)", 10), Some(8));
    assert_eq!(shrink_per_page_from_complexity_error(e, Some(5), 9), Some(8));
}

#[test]
fn smallest_page_size_does_not_shrink() {
    let e = "complexity is too high (actual: 100000)";
    assert_eq!(shrink_as_the_shell_does(e, 8), None);
    assert_eq!(shrink_per_page_from_complexity_error(e, Some(3), 8), None);
    assert_eq!(shrink_per_page_from_complexity_error(e, Some(0), 1), None);
}

#[test]
fn other_errors_do_not_shrink() {
    assert_eq!(shrink_as_the_shell_does("timeout (actual: 5000)", 128), None);
    assert_eq!(shrink_per_page_from_complexity_error("timeout (actual: 5000)", Some(10), 128), None);
    assert_eq!(shrink_as_the_shell_does("complexity is too high (actual: 1000)", 128), None);
    assert_eq!(shrink_as_the_shell_does("complexity is too high (actual: lots)", 128), None);
    assert_eq!(shrink_as_the_shell_does("complexity is too high", 128), None);
    assert_eq!(shrink_per_page_from_complexity_error("complexity is too high", Some(128), 128), None);
    assert_eq!(shrink_per_page_from_complexity_error("complexity is too high", Some(200), 128), None);
}

#[test]
fn characters_variables_hold_the_id_as_text() {
    assert_eq!(characters_variables(1386), jo(vec![("id", js("1386"))]));
}

#[test]
fn roster_skips_incomplete_entries() {
    let data = jo(vec![(
        "videogame",
        jo(vec![(
            "characters",
            Json::Array(vec![
                jo(vec![("id", jn(1)), ("name", js("Mario"))]),
                jo(vec![("id", js("2")), ("name", js("Donkey Kong"))]),
                jo(vec![("id", jn(3))]),
                jo(vec![("name", js("Nobody"))]),
            ]),
        )]),
    )]);
    let r = parse_videogame_characters(&data).unwrap();
    assert_eq!(
        r,
        vec![
            GameCharacter { id: 1, name: "Mario".to_string() },
            GameCharacter { id: 2, name: "Donkey Kong".to_string() },
        ]
    );
}

#[test]
fn roster_needs_a_characters_array() {
    let data = jo(vec![("videogame", Json::Null)]);
    assert_eq!(
        parse_videogame_characters(&data),
        Err("start.gg response did not include characters".to_string())
    );
    assert_eq!(videogame_characters_from(Err("boom".to_string())), Err("boom".to_string()));
}

#[test]
fn roster_names_later_entries_win() {
    let cs = vec![
        GameCharacter { id: 1, name: "A".to_string() },
        GameCharacter { id: 1, name: "B".to_string() },
        GameCharacter { id: 2, name: "C".to_string() },
    ];
    let m = character_names_from(Ok(cs));
    assert_eq!(m.len(), 2);
    assert_eq!(m.get(&1).map(String::as_str), Some("B"));
    assert!(character_names_from(Err("x".to_string())).is_empty());
}
