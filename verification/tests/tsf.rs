use sirji::id52;
use sirji::keys::SecretKey;
use sirji::ticket::{Ticket, LIFETIME_SECS};
use sirji::tsf::config::{home, is_under, Config, ResolveError};
use sirji::tsf::proto::{Entry, Knock};
use sirji::proto::{Hello, Invite, Welcome};
use sirji::tsf::enrol::{dial_plan, enrol_hello, enrolled, invite_given, parse_init_args, served_root, DialPlan};
use sirji::tsf::serve::{listing_path, name_at_peer, served_name, sort_listing, welcome_knock, Refusal};

const HOME: &str = "/tmp/tsf-test";
const ROOT: &str = "/tmp/tsf-test/served";

fn fixture() -> (String, Config) {
    let config = Config {
        name: "fs".into(),
        key: "k".into(),
        parent: vec![],
        parent_dns: vec![],
        parent_hints: vec![],
        root: ROOT.into(),
    };
    (HOME.to_string(), config)
}

/// What canonicalising gives in the fixture's tree: `escape` is a symlink to
/// `../secret.txt`, `nope.txt` does not exist.
fn canonical(path: &str) -> Option<String> {
    let known = [
        (format!("{ROOT}/hello.txt"), format!("{ROOT}/hello.txt")),
        (format!("{ROOT}/sub/nested.txt"), format!("{ROOT}/sub/nested.txt")),
        (format!("{ROOT}/../secret.txt"), format!("{HOME}/secret.txt")),
        (format!("{ROOT}/escape"), format!("{HOME}/secret.txt")),
        (format!("{ROOT}/."), ROOT.to_string()),
    ];
    known.iter().find(|(p, _)| p == path).map(|(_, c)| c.clone())
}

fn resolve(config: &Config, relative: &str) -> Result<String, ResolveError> {
    let root = Some(ROOT.to_string());
    let candidate = Config::candidate(ROOT, relative);
    config.resolve(relative, root, canonical(&candidate))
}

#[test]
fn resolves_inside_the_root() {
    let (_home, config) = fixture();
    assert!(resolve(&config, "hello.txt").unwrap().ends_with("hello.txt"));
    assert!(resolve(&config, "sub/nested.txt").unwrap().ends_with("nested.txt"));
    assert!(resolve(&config, "/hello.txt").unwrap().ends_with("hello.txt"));
}

#[test]
fn refuses_to_escape_with_dotdot() {
    let (_home, config) = fixture();
    let err = resolve(&config, "../secret.txt").unwrap_err().message();
    assert!(err.contains("outside") || err.contains("no such path"), "{err}");
}

#[test]
fn refuses_a_symlink_out_of_the_tree() {
    let (_home, config) = fixture();
    // The string looks harmless; only canonicalising reveals where it goes.
    let err = resolve(&config, "escape").unwrap_err().message();
    assert!(err.contains("outside"), "{err}");
}

#[test]
fn refuses_a_missing_path() {
    let (_home, config) = fixture();
    assert!(resolve(&config, "nope.txt").is_err());
}

#[test]
fn a_missing_root_is_reported() {
    let (_home, config) = fixture();
    let err = config.resolve("hello.txt", None, None).unwrap_err();
    assert_eq!(err.message(), "the served root /tmp/tsf-test/served does not exist");
    let err = resolve(&config, "nope.txt").unwrap_err();
    assert_eq!(err.message(), "no such path: nope.txt");
}

#[test]
fn lying_under_goes_by_components() {
    assert!(is_under("/a/b/c", "/a/b"));
    assert!(is_under("/a/b", "/a/b"));
    assert!(is_under("/a//b/./c", "/a/b/"));
    assert!(!is_under("/a/bc", "/a/b"));
    assert!(!is_under("a/b", "/a"));
    assert!(is_under("/anything", "/"));
    assert_eq!(Config::candidate("/srv", "///x/y"), "/srv/x/y");
}

#[test]
fn the_device_home_comes_from_the_environment() {
    assert_eq!(home(Some("/d".into()), Some("/home/a".into())).unwrap(), "/d");
    assert_eq!(home(None, Some("/home/a".into())).unwrap(), "/home/a/.t-sirji-fs");
    assert!(home(None, None).is_err());
    assert_eq!(Config::path_in("/d"), "/d/t-sirji-fs.toml");
}

fn ticketed(name: &str) -> (Config, SecretKey, Ticket) {
    let parent = SecretKey::generate();
    let caller = SecretKey::generate();
    let (_home, mut config) = fixture();
    config.parent = vec![id52::encode(&parent.public())];
    let ticket = Ticket::mint(&parent, name.into(), id52::encode(&caller.public()), None, LIFETIME_SECS);
    (config, caller, ticket)
}

#[test]
fn a_knock_needs_a_ticket_for_this_device() {
    let (config, caller, ticket) = ticketed("fs");
    let now = sirji::ticket::now();
    assert!(welcome_knock(&config, &caller.public(), &Knock { ticket: Some(ticket) }, now).is_ok());

    let refused = welcome_knock(&config, &caller.public(), &Knock { ticket: None }, now).unwrap_err();
    assert!(matches!(refused, Refusal::NoTicket));
    assert_eq!(
        refused.message(),
        "no ticket \u{2014} resolve us as `name@peer` instead of dialling directly"
    );

    let (config, caller, ticket) = ticketed("photos");
    let refused = welcome_knock(&config, &caller.public(), &Knock { ticket: Some(ticket) }, now).unwrap_err();
    assert_eq!(refused.message(), "this ticket is for `photos`, we are `fs`");

    let (config, _caller, ticket) = ticketed("fs");
    let stranger = SecretKey::generate();
    let refused = welcome_knock(&config, &stranger.public(), &Knock { ticket: Some(ticket) }, now).unwrap_err();
    assert!(refused.message().contains("presented it"));
}

#[test]
fn a_listing_puts_directories_first_then_names() {
    let entry = |name: &str, dir: bool, bytes: u64| Entry { name: name.into(), dir, bytes };
    let sorted = sort_listing(vec![
        entry("b.txt", false, 3),
        entry("zeta", true, 0),
        entry("a.txt", false, 5),
        entry("alpha", true, 0),
    ]);
    let names: Vec<_> = sorted.iter().map(|e| e.name.as_str()).collect();
    assert_eq!(names, vec!["alpha", "zeta", "a.txt", "b.txt"]);
    assert_eq!(sorted[2].bytes, 5);
}

#[test]
fn requests_name_paths_and_files() {
    assert_eq!(listing_path(""), ".");
    assert_eq!(listing_path("sub"), "sub");
    assert_eq!(served_name("/srv/sub/nested.txt", "sub/nested.txt"), "nested.txt");
    assert_eq!(served_name("/", "x"), "x");
    assert_eq!(Refusal::NotAFile { path: "sub".into() }.message(), "sub is not a file");
    assert_eq!(Refusal::NotADirectory { path: "a.txt".into() }.message(), "a.txt is not a directory");
}

#[test]
fn a_target_is_name_at_peer() {
    assert_eq!(name_at_peer("fs@kiran").unwrap(), ("fs".to_string(), "kiran".to_string()));
    assert_eq!(name_at_peer("a@b@c").unwrap(), ("a".to_string(), "b@c".to_string()));
    assert_eq!(name_at_peer("fs").unwrap_err(), "\"fs\" is not name@peer");
}

#[test]
fn init_reads_its_flags() {
    let args: Vec<String> = ["--parent", "INVITE", "--root", "/srv"].iter().map(|s| s.to_string()).collect();
    let parsed = parse_init_args(&args).unwrap();
    assert_eq!(parsed.parent, Some("INVITE".to_string()));
    assert_eq!(parsed.root, Some("/srv".to_string()));
    assert_eq!(parsed.name, None);
    let args: Vec<String> = ["--name", "fs", "--bogus"].iter().map(|s| s.to_string()).collect();
    assert_eq!(parse_init_args(&args).unwrap_err(), "unrecognised argument: --bogus");
    let args: Vec<String> = ["--name"].iter().map(|s| s.to_string()).collect();
    assert_eq!(parse_init_args(&args).unwrap().name, None);
}

#[test]
fn a_welcomed_device_keeps_the_name_its_parent_gave() {
    let invite = Invite {
        addresses: vec!["p1".into()],
        dns: vec!["parent.example".into()],
        identity: "minted".into(),
        hints: vec!["10.0.0.1:1".into()],
    };
    match enrol_hello(&invite, &"mine".to_string()) {
        Hello::Invited { invited_to, addresses, dns } => {
            assert_eq!(invited_to, "minted");
            assert_eq!(addresses, vec!["mine".to_string()]);
            assert!(dns.is_empty());
        }
        other => panic!("{other:?}"),
    }
    let welcome = Welcome::Accepted { alias: "photos".into(), addresses: vec![], dns: vec![] };
    let config = enrolled("mine".into(), &invite, "/srv".into(), welcome).unwrap();
    assert_eq!(config.name, "photos");
    assert_eq!(config.parent, vec!["p1".to_string()]);
    assert_eq!(config.parent_hints, vec!["10.0.0.1:1".to_string()]);
    let refused = enrolled("mine".into(), &invite, "/srv".into(), Welcome::No { reason: "nope".into() });
    assert_eq!(refused.unwrap_err(), "the parent refused us: nope");
    assert_eq!(served_root("/home/d", &None), "/home/d/served");
    assert_eq!(served_root("/home/d", &Some("/x".into())), "/x");
    let no_parent = parse_init_args(&vec![]).unwrap();
    assert!(invite_given(&no_parent).unwrap_err().starts_with("--parent <invite> is required"));
}

#[test]
fn a_client_dials_through_its_parent_or_directly() {
    let (_home, mut config) = fixture();
    config.parent_hints = vec!["h".into()];
    match dial_plan(Some(&config), "fs@kiran").unwrap() {
        DialPlan::ViaParent { name, peer } => assert_eq!((name.as_str(), peer.as_str()), ("fs", "kiran")),
        other => panic!("{other:?}"),
    }
    assert_eq!(dial_plan(None, "fs@kiran").unwrap_err(), "no device home: run `t-sirji-fs init` first");
    match dial_plan(Some(&config), "KEY").unwrap() {
        DialPlan::Direct { key, hints } => {
            assert_eq!(key, "KEY");
            assert_eq!(hints, vec!["h".to_string()]);
        }
        other => panic!("{other:?}"),
    }
    match dial_plan(None, "KEY").unwrap() {
        DialPlan::Direct { hints, .. } => assert!(hints.is_empty()),
        other => panic!("{other:?}"),
    }
}

#[test]
fn a_leading_slash_lands_in_the_same_place() {
    for rel in ["hello.txt", "sub/nested.txt", "", "a/b/"] {
        assert_eq!(Config::candidate(ROOT, &format!("/{rel}")), Config::candidate(ROOT, rel));
        assert_eq!(Config::candidate(ROOT, &format!("///{rel}")), Config::candidate(ROOT, rel));
    }
    assert_eq!(Config::candidate(ROOT, "/hello.txt"), format!("{ROOT}/hello.txt"));
}
