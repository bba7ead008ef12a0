use roblox_steam_launcher::config::{
    describe_read_error, describe_write_error, Config, ConfigReadError, ConfigWriteError,
};
use roblox_steam_launcher::get_config_file_name;

fn config_with(gameid: &str, debug: bool, arguments: Vec<String>) -> Config {
    let mut c = Config::new();
    c.steam_gameid = String::from(gameid);
    c.debug = debug;
    c.arguments = arguments;
    c
}

#[test]
fn canonical_rendering_is_exact() {
    let c = config_with("123", false, vec![]);
    assert_eq!(
        c.to_json_string(),
        "{\"steam_gameid\":\"123\",\"debug\":false,\"arguments\":[]}"
    );
    let c2 = config_with("9", true, vec![String::from("-a"), String::from("-b")]);
    assert_eq!(
        c2.to_json_string(),
        "{\"steam_gameid\":\"9\",\"debug\":true,\"arguments\":[\"-a\",\"-b\"]}"
    );
}

#[test]
fn rendering_escapes_special_characters() {
    let c = config_with("a\"b\\c\nd\u{1f}", false, vec![]);
    assert_eq!(
        c.to_json_string(),
        "{\"steam_gameid\":\"a\\\"b\\\\c\\nd\\u001f\",\"debug\":false,\"arguments\":[]}"
    );
}

#[test]
fn mailbox_is_consumed_exactly_once() {
    // Write arguments, persist, reload, and clear: they come out once;
    // a second load after the clearing save yields nothing.
    let mut c = config_with("42", false, vec![String::from("-a"), String::from("-b")]);
    let stored = c.to_json_string();
    let mut reloaded = Config::from_json_str(&stored).unwrap();
    let taken = reloaded.take_arguments();
    assert_eq!(taken, vec![String::from("-a"), String::from("-b")]);
    assert!(reloaded.arguments.is_empty());
    let cleared = reloaded.to_json_string();
    let mut second = Config::from_json_str(&cleared).unwrap();
    assert_eq!(second.take_arguments(), Vec::<String>::new());
    assert_eq!(second.steam_gameid, "42");
}

#[test]
fn parse_inverts_rendering() {
    let c = config_with("x\"\\\n", true, vec![String::from("--play"), String::from("")]);
    let parsed = Config::from_json_str(&c.to_json_string()).unwrap();
    assert_eq!(parsed.steam_gameid, c.steam_gameid);
    assert_eq!(parsed.debug, c.debug);
    assert_eq!(parsed.arguments, c.arguments);
}

#[test]
fn parse_accepts_whitespace_between_tokens() {
    let text = " {\t\"steam_gameid\" : \"g1\" ,\n \"debug\" : true , \"arguments\" : [ \"a\" , \"b\" ] } \n";
    let c = Config::from_json_str(text).unwrap();
    assert_eq!(c.steam_gameid, "g1");
    assert!(c.debug);
    assert_eq!(c.arguments, vec![String::from("a"), String::from("b")]);
}

#[test]
fn parse_decodes_standard_escapes() {
    let text = "{\"steam_gameid\":\"q\\\"s\\\\b\\/f\\b\\f\\n\\r\\t\\u0041\\u001f\",\"debug\":false,\"arguments\":[]}";
    let c = Config::from_json_str(text).unwrap();
    assert_eq!(c.steam_gameid, "q\"s\\b/f\u{8}\u{c}\n\r\tA\u{1f}");
}

#[test]
fn parse_rejects_malformed_documents() {
    let bad = [
        "",
        "{",
        "{\"steam_gameid\":\"a\",\"debug\":false}",
        "{\"steam_gameid\":\"a\",\"debug\":maybe,\"arguments\":[]}",
        "{\"steam_gameid\":\"a\",\"debug\":false,\"arguments\":[1]}",
        "{\"steam_gameid\":\"a\",\"debug\":false,\"arguments\":[]}x",
        "{\"steam_gameid\":\"a\",\"debug\":false,\"arguments\":[\"u\",]}",
        "{\"steam_gameid\":\"unterminated,\"debug\":false,\"arguments\":[]}",
        "{\"steam_gameid\":\"a\",\"steam_gameid\":\"b\",\"debug\":false,\"arguments\":[]}",
        "{\"steam_gameid\":\"\\uD801x\",\"debug\":false,\"arguments\":[]}",
        "{\"steam_gameid\":\"\\uDC00\",\"debug\":false,\"arguments\":[]}",
        "{\"steam_gameid\":\"a\",\"debug\":false,\"arguments\":[],\"extra\":01}",
        "{\"steam_gameid\":\"a\",\"debug\":false,\"arguments\":[],}",
    ];
    for text in bad.iter() {
        match Config::from_json_str(text) {
            Err(ConfigReadError::Malformed(_)) => {}
            _ => panic!("expected a malformed-config error for {:?}", text),
        }
    }
}

#[test]
fn rendering_is_valid_json_to_an_independent_reader() {
    let c = config_with("a\"b\\c\nd", true, vec![String::from("--x"), String::from("y z")]);
    let v: serde_json::Value = serde_json::from_str(&c.to_json_string()).unwrap();
    assert_eq!(v["steam_gameid"].as_str().unwrap(), "a\"b\\c\nd");
    assert_eq!(v["debug"].as_bool().unwrap(), true);
    let args: Vec<&str> = v["arguments"]
        .as_array()
        .unwrap()
        .iter()
        .map(|e| e.as_str().unwrap())
        .collect();
    assert_eq!(args, vec!["--x", "y z"]);
}

#[test]
fn parse_accepts_fields_in_any_order() {
    let text = "{\"debug\":true,\"arguments\":[\"x\"],\"steam_gameid\":\"g\"}";
    let c = Config::from_json_str(text).unwrap();
    assert_eq!(c.steam_gameid, "g");
    assert!(c.debug);
    assert_eq!(c.arguments, vec![String::from("x")]);
}

#[test]
fn parse_tolerates_unknown_fields() {
    let text = "{\"color\":null,\"steam_gameid\":\"g\",\"retries\":-1.5e3,\"debug\":false,\"nested\":{\"a\":[1,true,\"s\"],\"b\":{}},\"arguments\":[],\"note\":\"hi\",\"note\":\"again\"}";
    let c = Config::from_json_str(text).unwrap();
    assert_eq!(c.steam_gameid, "g");
    assert!(!c.debug);
    assert!(c.arguments.is_empty());
}

#[test]
fn parse_decodes_full_unicode_escapes() {
    let text = "{\"steam_gameid\":\"\\u0141\\uD83D\\uDE00\",\"debug\":false,\"arguments\":[]}";
    let c = Config::from_json_str(text).unwrap();
    assert_eq!(c.steam_gameid, "\u{141}\u{1F600}");
}

#[test]
fn parse_reads_an_independent_writer() {
    let mut obj = serde_json::Map::new();
    obj.insert(
        String::from("steam_gameid"),
        serde_json::Value::String(String::from("570")),
    );
    obj.insert(String::from("debug"), serde_json::Value::Bool(false));
    obj.insert(
        String::from("arguments"),
        serde_json::Value::Array(vec![serde_json::Value::String(String::from("-t"))]),
    );
    let text = serde_json::to_string_pretty(&serde_json::Value::Object(obj)).unwrap();
    let c = Config::from_json_str(&text).unwrap();
    assert_eq!(c.steam_gameid, "570");
    assert!(!c.debug);
    assert_eq!(c.arguments, vec![String::from("-t")]);
}

#[test]
fn parse_reads_a_pretty_printed_document() {
    let text = "{\n  \"steam_gameid\": \"570\",\n  \"debug\": false,\n  \"arguments\": [\n    \"-t\"\n  ]\n}\n";
    let c = Config::from_json_str(text).unwrap();
    assert_eq!(c.steam_gameid, "570");
    assert!(!c.debug);
    assert_eq!(c.arguments, vec![String::from("-t")]);
}

#[test]
fn new_config_is_empty() {
    let c = Config::new();
    assert_eq!(c.steam_gameid, "");
    assert!(!c.debug);
    assert!(c.arguments.is_empty());
}

#[test]
fn error_descriptions_name_the_failure() {
    let e = ConfigReadError::Malformed(String::from("oops"));
    assert_eq!(describe_read_error(&e), "Malformed config file: oops");
    let e = ConfigReadError::NotReadable(String::from("r"));
    assert_eq!(describe_read_error(&e), "Cannot read config file: r");
    let e = ConfigReadError::NotOpenable(String::from("o"));
    assert_eq!(describe_read_error(&e), "Cannot open config file for reading: o");
    let e = ConfigWriteError::NotSerializable(String::from("s"));
    assert_eq!(describe_write_error(&e), "Cannot serialize config struct: s");
    let e = ConfigWriteError::NotWriteable(String::from("w"));
    assert_eq!(describe_write_error(&e), "Cannot write config file: w");
    let e = ConfigWriteError::NotOpenable(String::from("o"));
    assert_eq!(describe_write_error(&e), "Cannot open config file for writing: o");
}

#[test]
fn config_file_name_is_fixed() {
    assert_eq!(get_config_file_name(), "roblox_steam_launcher_config.json");
}
