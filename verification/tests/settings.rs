//! The stored form of a configuration.

use mirra::config::{Config, Root, RootShare, RootSync};
use mirra::error::ErrorKind;
use mirra::settings::{
    config_from, get_field, load_config, parse_table, settings_of, shallow, store_config, Field,
    Setting, MAX_NESTING,
};

fn text(s: &str) -> Field {
    Field::Text(s.to_string())
}

fn table(fields: &[(&str, Field)]) -> Vec<(String, Field)> {
    let mut out = Vec::new();
    for (k, v) in fields {
        let value = match v {
            Field::Text(s) => Field::Text(s.clone()),
            Field::Number(n) => Field::Number(*n),
            Field::Other => Field::Other,
        };
        out.push((k.to_string(), value));
    }
    out
}

fn sync_of(root: Root) -> RootSync {
    match root {
        Root::Sync(sync) => sync,
        Root::Share(_) => panic!("expected a sync"),
    }
}

fn share_of(root: Root) -> RootShare {
    match root {
        Root::Share(share) => share,
        Root::Sync(_) => panic!("expected a share"),
    }
}

#[test]
fn a_table_with_ip_and_port_is_a_sync() {
    let fields =
        table(&[("ip", text("10.0.0.1")), ("port", Field::Number(7001)), ("path", text("copy"))]);
    let sync = sync_of(parse_table(&fields, "docs".to_string()).unwrap());
    assert_eq!((sync.ip.as_str(), sync.port, sync.path.as_str()), ("10.0.0.1", 7001, "copy"));
}

#[test]
fn a_sync_without_path_lies_at_its_name() {
    let fields = table(&[("port", Field::Number(6007)), ("ip", text("example.org"))]);
    let sync = sync_of(parse_table(&fields, "docs".to_string()).unwrap());
    assert_eq!((sync.ip.as_str(), sync.port, sync.path.as_str()), ("example.org", 6007, "docs"));
}

#[test]
fn a_table_with_a_path_alone_is_a_share() {
    let fields = table(&[("path", text("/srv/docs")), ("comment", Field::Other)]);
    assert_eq!(share_of(parse_table(&fields, "docs".to_string()).unwrap()).path, "/srv/docs");
    // With only one of ip and port the table is a share too.
    let fields = table(&[("ip", text("10.0.0.1")), ("path", text("p"))]);
    assert_eq!(share_of(parse_table(&fields, "docs".to_string()).unwrap()).path, "p");
    let fields = table(&[("port", Field::Other), ("path", text("p"))]);
    assert_eq!(share_of(parse_table(&fields, "docs".to_string()).unwrap()).path, "p");
}

#[test]
fn other_tables_are_invalid() {
    let bad = [
        table(&[]),
        table(&[("ip", text("10.0.0.1"))]),
        table(&[("path", Field::Number(3))]),
        table(&[("path", Field::Other)]),
        table(&[("ip", Field::Number(1)), ("port", Field::Number(6007))]),
        table(&[("ip", text("h")), ("port", text("6007"))]),
        table(&[("ip", text("h")), ("port", Field::Other)]),
        table(&[("ip", text("h")), ("port", Field::Number(1)), ("path", Field::Number(2))]),
        table(&[("ip", text("h")), ("port", Field::Number(1)), ("path", Field::Other)]),
    ];
    for fields in bad {
        assert!(
            matches!(parse_table(&fields, "m".to_string()), Err(ErrorKind::InvalidData)),
            "{:?}",
            fields
        );
    }
}

#[test]
fn the_port_of_a_sync_is_cut_to_sixteen_bits() {
    for (given, taken) in [(0i64, 0u16), (65_535, 65_535), (65_536, 0), (70_000, 4_464), (-1, 65_535)] {
        let fields = table(&[("ip", text("h")), ("port", Field::Number(given))]);
        assert_eq!(sync_of(parse_table(&fields, "m".to_string()).unwrap()).port, taken);
    }
}

#[test]
fn the_first_of_two_equal_keys_counts() {
    let fields = table(&[("path", text("first")), ("path", text("second"))]);
    assert_eq!(get_field(&fields, "path"), Some(&text("first")));
    assert_eq!(get_field(&fields, "ip"), None);
    assert_eq!(get_field(&Vec::new(), "path"), None);
}

#[test]
fn an_empty_document_is_the_default_configuration() {
    let config = config_from(&Vec::new()).unwrap();
    assert_eq!((config.name.as_str(), config.port), ("no name", 6007));
    assert_eq!((config.shares.len(), config.syncs.len()), (0, 0));
    let config = load_config("").unwrap();
    assert_eq!((config.name.as_str(), config.port), ("no name", 6007));
}

#[test]
fn a_document_is_read_entry_by_entry() {
    let settings = vec![
        ("name".to_string(), Setting::Text("alpha".to_string())),
        ("port".to_string(), Setting::Number(7000)),
        ("title".to_string(), Setting::Text("ignored".to_string())),
        ("docs".to_string(), Setting::Table(table(&[("path", text("/srv/docs"))]))),
        ("flag".to_string(), Setting::Other),
        (
            "pics".to_string(),
            Setting::Table(table(&[("ip", text("10.0.0.2")), ("port", Field::Number(6007))])),
        ),
        ("name".to_string(), Setting::Number(3)),
        ("port".to_string(), Setting::Text("x".to_string())),
    ];
    let config = config_from(&settings).unwrap();
    assert_eq!((config.name.as_str(), config.port), ("alpha", 7000));
    assert_eq!(config.shares.len(), 1);
    assert_eq!(config.shares.get("docs").unwrap().path, "/srv/docs");
    let pics = config.syncs.get("pics").unwrap();
    assert_eq!((pics.ip.as_str(), pics.port, pics.path.as_str()), ("10.0.0.2", 6007, "pics"));
    assert_eq!(config.resolve("docs"), Some("/srv/docs".to_string()));
    assert_eq!(config.resolve("pics"), Some("pics".to_string()));
}

#[test]
fn one_bad_table_spoils_the_document() {
    let settings = vec![
        ("docs".to_string(), Setting::Table(table(&[("path", text("/srv/docs"))]))),
        ("broken".to_string(), Setting::Table(table(&[]))),
        ("name".to_string(), Setting::Text("late".to_string())),
    ];
    assert!(matches!(config_from(&settings), Err(ErrorKind::InvalidData)));
}

#[test]
fn a_table_may_be_called_name() {
    let settings = vec![
        ("name".to_string(), Setting::Table(table(&[("path", text("p"))]))),
        ("port".to_string(), Setting::Table(table(&[("path", text("q"))]))),
    ];
    let config = config_from(&settings).unwrap();
    assert_eq!((config.name.as_str(), config.port), ("no name", 6007));
    assert_eq!(config.shares.get("name").unwrap().path, "p");
    assert_eq!(config.shares.get("port").unwrap().path, "q");
}

#[test]
fn toml_text_is_read() {
    let config = load_config(
        r#"
name = "alpha"
port = 7000
motto = "ignored"
pi = 3.14

[docs]
path = "/srv/docs"

[mirror]
ip = "10.0.0.1"
port = 6008

[far]
ip = "example.org"
port = 70000
path = "far/away"
"#,
    )
    .unwrap();
    assert_eq!((config.name.as_str(), config.port), ("alpha", 7000));
    assert_eq!(config.shares.len(), 1);
    assert_eq!(config.shares.get("docs").unwrap().path, "/srv/docs");
    assert_eq!(config.syncs.len(), 2);
    let mirror = config.syncs.get("mirror").unwrap();
    assert_eq!((mirror.ip.as_str(), mirror.port, mirror.path.as_str()), ("10.0.0.1", 6008, "mirror"));
    let far = config.syncs.get("far").unwrap();
    assert_eq!((far.ip.as_str(), far.port, far.path.as_str()), ("example.org", 4464, "far/away"));
}

#[test]
fn text_that_is_no_toml_is_invalid() {
    for bad in ["name = ", "[docs", "= 3", "name = \"a\"\nname = \"b\"", "[docs]\npath = 'x'\n[docs]\n"] {
        assert!(matches!(load_config(bad), Err(ErrorKind::InvalidData)), "{:?}", bad);
    }
}

#[test]
fn toml_with_a_bad_table_is_invalid() {
    for bad in [
        "[docs]\n",
        "[docs]\nip = \"h\"\n",
        "[docs]\npath = 3\n",
        "[docs]\npath = [\"a\"]\n",
        "[docs]\nip = \"h\"\nport = \"6007\"\n",
        "[docs]\nip = \"h\"\nport = 1\npath = { a = 1 }\n",
        "[docs.inner]\npath = \"x\"\n",
    ] {
        assert!(matches!(load_config(bad), Err(ErrorKind::InvalidData)), "{:?}", bad);
    }
}

#[test]
fn text_with_too_much_nesting_is_not_read() {
    assert_eq!(MAX_NESTING, 256);
    assert!(shallow(""));
    assert!(shallow("[docs]\npath = \"/srv/docs.d\"\n[pics]\nip = \"10.0.0.1\"\nport = 1\n"));

    // Brackets count wherever they stand, dots line by line.
    let nested = |depth: usize| format!("x = {}1{}", "[".repeat(depth), "]".repeat(depth));
    assert!(shallow(&nested(127)));
    assert!(!shallow(&nested(128)));
    assert!(load_config(&nested(127)).is_ok());
    assert!(matches!(load_config(&nested(128)), Err(ErrorKind::InvalidData)));
    assert!(matches!(load_config(&nested(5000)), Err(ErrorKind::InvalidData)));

    let inline = |depth: usize| {
        format!("x = {}1{}", "{ a = ".repeat(depth), " }".repeat(depth))
    };
    // A table at the top that is no module spoils the document.
    assert!(shallow(&inline(127)) && !shallow(&inline(128)));
    assert!(matches!(load_config(&inline(127)), Err(ErrorKind::InvalidData)));
    assert!(matches!(load_config(&inline(128)), Err(ErrorKind::InvalidData)));
    let tucked = format!("x = [{}]", inline(126).trim_start_matches("x = "));
    assert!(shallow(&tucked));
    assert!(load_config(&tucked).is_ok());

    let dotted = |dots: usize| format!("a{} = 1\n", ".b".repeat(dots));
    assert!(shallow(&dotted(127)));
    assert!(!shallow(&dotted(128)));
    assert!(matches!(load_config(&dotted(127)), Err(ErrorKind::InvalidData)));
    assert!(shallow(&dotted(100).repeat(50)));

    // A table of tables is read, and is no module.
    let header = format!("[a{}]\npath = \"p\"\n", ".b".repeat(126));
    assert!(shallow(&header));
    assert!(matches!(load_config(&header), Err(ErrorKind::InvalidData)));

    let mixed = format!(
        "[a{}]\nc{} = {}1{}\n",
        ".b".repeat(40),
        ".d".repeat(40),
        "[".repeat(80),
        "]".repeat(80)
    );
    assert!(shallow(&mixed));
    assert!(matches!(load_config(&mixed), Err(ErrorKind::InvalidData)));
}

#[test]
fn a_configuration_of_many_modules_is_read() {
    let mut text = String::from("name = \"big\"\n");
    for i in 0..60 {
        text += &format!("[share{}]\npath = \"/srv/share.{}.d\"\n", i, i);
        text += &format!("[sync{}]\nip = \"10.0.0.{}\"\nport = 6007\n", i, i);
    }
    let config = load_config(&text).unwrap();
    assert_eq!((config.shares.len(), config.syncs.len()), (60, 60));
    assert_eq!(config.syncs.get("sync59").unwrap().ip, "10.0.0.59");
}

fn example() -> Config {
    let mut config = Config::new("alpha".to_string(), 7000);
    config.add_share("docs".to_string(), RootShare { path: "/srv/docs".to_string() });
    config.add_share("zoo".to_string(), RootShare { path: "zoo \"quoted\"".to_string() });
    config.add_sync(
        "mirror".to_string(),
        RootSync { ip: "10.0.0.1".to_string(), port: 6008, path: "copies/mirror".to_string() },
    );
    config
}

#[test]
fn the_document_of_a_configuration() {
    let settings = settings_of(&example());
    assert_eq!(
        settings,
        vec![
            ("name".to_string(), Setting::Text("alpha".to_string())),
            ("port".to_string(), Setting::Number(7000)),
            ("docs".to_string(), Setting::Table(table(&[("path", text("/srv/docs"))]))),
            ("zoo".to_string(), Setting::Table(table(&[("path", text("zoo \"quoted\""))]))),
            (
                "mirror".to_string(),
                Setting::Table(table(&[
                    ("ip", text("10.0.0.1")),
                    ("port", Field::Number(6008)),
                    ("path", text("copies/mirror")),
                ]))
            ),
        ]
    );
}

#[test]
fn what_is_stored_is_read_back() {
    let stored = store_config(&example()).unwrap();
    assert_eq!(stored.parse::<toml::Value>().unwrap()["docs"]["path"].as_str(), Some("/srv/docs"));
    let config = load_config(&stored).unwrap();
    assert_eq!((config.name.as_str(), config.port), ("alpha", 7000));
    assert_eq!(config.shares.len(), 2);
    assert_eq!(config.shares.get("docs").unwrap().path, "/srv/docs");
    assert_eq!(config.shares.get("zoo").unwrap().path, "zoo \"quoted\"");
    assert_eq!(config.syncs.len(), 1);
    let mirror = config.syncs.get("mirror").unwrap();
    assert_eq!(
        (mirror.ip.as_str(), mirror.port, mirror.path.as_str()),
        ("10.0.0.1", 6008, "copies/mirror")
    );
}

#[test]
fn a_fresh_configuration_is_stored_as_name_and_port() {
    let stored = store_config(&Config::new("solo".to_string(), 6007)).unwrap();
    assert_eq!(stored, "name = \"solo\"\nport = 6007\n");
}
