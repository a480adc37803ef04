use lcu_draft::lockfile::{
    extract_credentials, extract_process_id, parse_lockfile_contents, read_lockfile,
    read_lockfile_from_path, serialize_lockfile_contents, LockfileData,
};

#[test]
fn test_extract_credentials() {
    let commandline = r#"LeagueClientUx.exe --app-port=54321 --remoting-auth-token=abc123def456 --some-other-arg"#;
    let result = extract_credentials(commandline).unwrap();

    assert_eq!(result.port, 54321);
    assert_eq!(result.password, "abc123def456");
    assert_eq!(result.protocol, "https");
    assert_eq!(result.process_name, "LeagueClient");
}

#[test]
fn test_extract_credentials_macos_format() {
    let commandline = r#"12345 ttys000  0:00.00 /Applications/League of Legends.app/Contents/LoL/Riot Games/League of Legends.app/Contents/MacOS/LeagueClientUx --app-port=54321 --remoting-auth-token=xyz789token --other-args"#;
    let result = extract_credentials(commandline).unwrap();

    assert_eq!(result.port, 54321);
    assert_eq!(result.password, "xyz789token");
    assert_eq!(result.protocol, "https");
}

#[test]
fn test_extract_credentials_reads_process_id() {
    let commandline = "9876 /usr/bin/LeagueClientUx --app-port=443 --remoting-auth-token=tok-en_1";
    let result = extract_credentials(commandline).unwrap();
    assert_eq!(result.process_id, 9876);
    assert_eq!(result.port, 443);
    assert_eq!(result.password, "tok-en_1");
}

#[test]
fn test_extract_credentials_missing_port() {
    let commandline = "LeagueClientUx.exe --remoting-auth-token=abc";
    assert_eq!(
        extract_credentials(commandline).unwrap_err(),
        "Could not find --app-port in process commandline"
    );
}

#[test]
fn test_extract_credentials_missing_token() {
    let commandline = "LeagueClientUx.exe --app-port=1234";
    assert!(extract_credentials(commandline).is_err());
}

#[test]
fn test_extract_credentials_port_out_of_range() {
    let commandline = "LeagueClientUx.exe --app-port=99999 --remoting-auth-token=abc";
    assert!(extract_credentials(commandline).is_err());
}

#[test]
fn test_extract_process_id_non_numeric() {
    assert_eq!(extract_process_id("LeagueClientUx.exe --app-port=1"), None);
    assert_eq!(extract_process_id("  4242 LeagueClientUx"), Some(4242));
    assert_eq!(extract_process_id(""), None);
}

#[test]
fn test_parse_lockfile_contents_well_formed() {
    let data = parse_lockfile_contents("LeagueClient:2244:55123:s3cr3t:https").unwrap();
    assert_eq!(data.process_name, "LeagueClient");
    assert_eq!(data.process_id, 2244);
    assert_eq!(data.port, 55123);
    assert_eq!(data.password, "s3cr3t");
    assert_eq!(data.protocol, "https");
}

#[test]
fn test_parse_lockfile_contents_takes_first_line() {
    let data = parse_lockfile_contents("Name:1:2:pw:https\r\nsecond line ignored").unwrap();
    assert_eq!(data.process_name, "Name");
    assert_eq!(data.process_id, 1);
    assert_eq!(data.port, 2);
    assert_eq!(data.protocol, "https");
}

#[test]
fn test_parse_lockfile_contents_wrong_field_count() {
    assert_eq!(
        parse_lockfile_contents("only:three:fields").unwrap_err(),
        "Invalid lockfile format"
    );
    assert!(parse_lockfile_contents("a:1:2:pw:https:extra").is_err());
    assert_eq!(parse_lockfile_contents("").unwrap_err(), "Lockfile is empty");
}

#[test]
fn test_parse_lockfile_contents_non_numeric_port() {
    assert!(parse_lockfile_contents("Name:1:notaport:pw:https").is_err());
    assert!(parse_lockfile_contents("Name:notapid:2:pw:https").is_err());
    assert!(parse_lockfile_contents("Name:1:70000:pw:https").is_err());
}

#[test]
fn test_parse_lockfile_contents_trims_protocol() {
    let data = parse_lockfile_contents("Name:1:2:pw:  https \t").unwrap();
    assert_eq!(data.protocol, "https");
}

#[test]
fn test_parse_lockfile_contents_accepts_plus_signed_numbers() {
    let data = parse_lockfile_contents("Name:+7:+80:pw:https").unwrap();
    assert_eq!(data.process_id, 7);
    assert_eq!(data.port, 80);
    assert!(parse_lockfile_contents("Name:-7:80:pw:https").is_err());
}

#[test]
fn test_lockfile_round_trip() {
    let original = LockfileData {
        process_name: "LeagueClient".to_string(),
        process_id: 31337,
        port: 54321,
        password: "p-a_s.s".to_string(),
        protocol: "https".to_string(),
    };
    let line = serialize_lockfile_contents(&original);
    assert_eq!(line, "LeagueClient:31337:54321:p-a_s.s:https");
    let back = parse_lockfile_contents(&line).unwrap();
    assert_eq!(back.process_name, original.process_name);
    assert_eq!(back.process_id, original.process_id);
    assert_eq!(back.port, original.port);
    assert_eq!(back.password, original.password);
    assert_eq!(back.protocol, original.protocol);
}

#[test]
fn test_read_lockfile_from_path_first_parsable_wins() {
    let candidates = vec![
        "garbage".to_string(),
        "A:1:2:pw:https".to_string(),
        "B:3:4:pw2:https".to_string(),
    ];
    let data = read_lockfile_from_path(&candidates).unwrap();
    assert_eq!(data.process_name, "A");

    let none: Vec<String> = vec!["bad".to_string()];
    assert!(read_lockfile_from_path(&none).is_err());
}

#[test]
fn test_read_lockfile_falls_back_to_commandline() {
    let candidates: Vec<String> = Vec::new();
    let commandline =
        Some("LeagueClientUx --app-port=18080 --remoting-auth-token=fallback".to_string());
    let data = read_lockfile(&candidates, &commandline).unwrap();
    assert_eq!(data.port, 18080);
    assert_eq!(data.password, "fallback");

    let lockfile_wins = vec!["Direct:7:8:pw:https".to_string()];
    let data = read_lockfile(&lockfile_wins, &commandline).unwrap();
    assert_eq!(data.process_name, "Direct");

    assert!(read_lockfile(&candidates, &None).is_err());
}
