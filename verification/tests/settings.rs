use mib_browser::config::{
    config_from_docs, config_from_yaml, config_to_yaml, load_config, save_config,
    try_load_config, Config, Profile,
};
use mib_browser::yaml::{parse_yaml, write_yaml, YamlValue};

fn text(s: &str) -> YamlValue {
    YamlValue::Str(s.to_string())
}

fn list(profile: &Profile) -> Vec<&str> {
    vec![
        &profile.name,
        &profile.host,
        &profile.version,
        &profile.community,
        &profile.security_engine_id,
        &profile.context_engine_id,
        &profile.security_level,
        &profile.auth_protocol,
        &profile.auth_passphrase,
        &profile.privacy_protocol,
        &profile.privacy_passphrase,
    ]
}

fn assert_same(a: &Config, b: &Config) {
    assert_eq!(a.mibs, b.mibs);
    assert_eq!(a.active_profile, b.active_profile);
    assert_eq!(a.profiles.len(), b.profiles.len());
    for (x, y) in a.profiles.iter().zip(b.profiles.iter()) {
        assert_eq!(list(x), list(y));
    }
}

fn assert_empty(config: &Config) {
    assert_same(config, &Config::default());
    assert!(config.mibs.is_empty() && config.active_profile.is_empty() && config.profiles.is_empty());
}

fn named(name: &str) -> Profile {
    let mut profile = Profile::default();
    profile.name = name.to_string();
    profile
}

fn full_profile() -> Profile {
    Profile {
        name: "Router".to_string(),
        host: "10.0.0.1".to_string(),
        version: "v2c".to_string(),
        community: "public".to_string(),
        security_engine_id: "0x8000".to_string(),
        context_engine_id: "ctx".to_string(),
        security_level: "authPriv".to_string(),
        auth_protocol: "SHA".to_string(),
        auth_passphrase: "a: b # c".to_string(),
        privacy_protocol: "AES".to_string(),
        privacy_passphrase: "line\nbreak".to_string(),
    }
}

fn config(mibs: &[&str], active: &str, profiles: Vec<Profile>) -> Config {
    Config {
        mibs: mibs.iter().map(|s| s.to_string()).collect(),
        active_profile: active.to_string(),
        profiles,
    }
}

#[test]
fn missing_file_gives_empty_settings() {
    assert_empty(&load_config(None));
}

#[test]
fn broken_or_empty_file_gives_empty_settings() {
    assert_empty(&load_config(Some("mibs: [")));
    assert_empty(&load_config(Some("a: b: c")));
    assert_empty(&load_config(Some("")));
    assert_empty(&load_config(Some("just text")));
    assert_empty(&load_config(Some("- mibs\n- profiles\n")));
    assert_empty(&config_from_docs(&Vec::new()));
}

#[test]
fn a_text_that_is_no_yaml_is_told() {
    assert!(try_load_config("mibs: [").is_err());
    assert!(try_load_config("a: b: c").is_err());
    assert_empty(&try_load_config("").unwrap());
    assert_empty(&try_load_config("just text").unwrap());
    let loaded = try_load_config("mibs: [a]\nactive_profile: P\n").unwrap();
    assert_same(&loaded, &config(&["a"], "P", Vec::new()));
}

#[test]
fn loads_all_settings() {
    let raw = "---
mibs:
  - /mibs/IF-MIB.txt
  - \"\"
  - 17
  - /mibs/IP-MIB.txt
active_profile: Router
profiles:
  - Router:
      host: 10.0.0.1
      version: v2c
      community: public
      security_engine_id: \"0x8000\"
      context_engine_id: ctx
      security_level: authPriv
      auth-proto: SHA
      auth-key: \"a: b # c\"
      priv-proto: AES
      priv-key: \"line\\nbreak\"
      other: ignored
  - Switch:
      version: 1
  - Plain: text
  - not a mapping
  - One: {}
    Two:
      host: h
    3:
      host: i
";
    let loaded = load_config(Some(raw));
    let mut two = named("Two");
    two.host = "h".to_string();
    let expected = config(
        &["/mibs/IF-MIB.txt", "/mibs/IP-MIB.txt"],
        "Router",
        vec![full_profile(), named("Switch"), named("One"), two],
    );
    assert_same(&loaded, &expected);
}

#[test]
fn only_the_first_document_counts() {
    let loaded = load_config(Some("---\nactive_profile: A\n---\nactive_profile: B\n"));
    assert_eq!(loaded.active_profile, "A");
    let docs = vec![
        YamlValue::Hash(vec![(text("active_profile"), text("X"))]),
        YamlValue::Hash(vec![(text("active_profile"), text("Y"))]),
    ];
    assert_eq!(config_from_docs(&docs).active_profile, "X");
}

#[test]
fn values_of_other_shapes_are_left_out() {
    let doc = YamlValue::Hash(vec![
        (text("mibs"), text("a")),
        (text("active_profile"), YamlValue::Other),
        (text("profiles"), YamlValue::Hash(Vec::new())),
    ]);
    assert_empty(&config_from_yaml(&doc));
    assert_empty(&config_from_yaml(&YamlValue::Other));
}

#[test]
fn saved_text_is_exact() {
    let mut profile = named("Router");
    profile.host = "10.0.0.1".to_string();
    profile.auth_passphrase = "a: b".to_string();
    let saved = save_config(&config(&["/a.mib", "/b.mib"], "Router", vec![profile, named("Bare")]));
    assert_eq!(
        saved,
        "---
mibs:
  - /a.mib
  - /b.mib
active_profile: Router
profiles:
  - Router:
      host: 10.0.0.1
      auth-key: \"a: b\"
  - Bare: {}"
    );
    assert_eq!(save_config(&Config::default()), "---\nmibs: []");
}

#[test]
fn empty_settings_have_no_entries() {
    match config_to_yaml(&Config::default()) {
        YamlValue::Hash(entries) => {
            assert_eq!(entries.len(), 1);
            assert!(matches!(&entries[0].0, YamlValue::Str(key) if key == "mibs"));
            assert!(matches!(&entries[0].1, YamlValue::Arr(items) if items.is_empty()));
        }
        _ => panic!("settings are a mapping"),
    }
}

#[test]
fn saved_settings_load_again() {
    let before = config(
        &["/mibs/IF-MIB.txt", "C:\\mibs\\x y.mib", "~", "true", "12", "0x1F", "- a", "#c"],
        "Router",
        vec![full_profile(), named("Unnamed Profile"), named(""), named("Duplicated of Router")],
    );
    assert_same(&load_config(Some(&save_config(&before))), &before);
}

#[test]
fn empty_paths_are_not_kept() {
    let loaded = load_config(Some(&save_config(&config(&["a", "", "b"], "", Vec::new()))));
    assert_same(&loaded, &config(&["a", "b"], "", Vec::new()));
}

#[test]
fn loaded_settings_are_stored_whole() {
    let raw = "mibs: [a, '', b]\nprofiles:\n - P: {host: h}\nactive_profile: P\n";
    let first = load_config(Some(raw));
    let second = load_config(Some(&save_config(&first)));
    assert_same(&first, &second);
    assert_eq!(second.mibs, vec!["a".to_string(), "b".to_string()]);
}

#[test]
fn settings_survive_as_a_document() {
    let before = config(&["a", "0o17"], "+.inf", vec![full_profile()]);
    assert_same(&config_from_yaml(&config_to_yaml(&before)), &before);
}

#[test]
fn texts_that_read_as_numbers_are_lost() {
    for lost in ["0o17", "0o+7", "+-5", "++5", "+.inf", "+.Inf", "+.INF"] {
        let loaded = load_config(Some(&save_config(&config(&["a", lost], lost, Vec::new()))));
        assert_same(&loaded, &config(&["a"], "", Vec::new()));
    }
    for lost in ["0o777777777777777777777", "0o-1000000000000000000000", "++9223372036854775807", "+-9223372036854775808"] {
        let loaded = load_config(Some(&save_config(&config(&[lost], lost, Vec::new()))));
        assert_empty(&loaded);
    }
    for held in ["0o1000000000000000000000", "0o-1000000000000000000001", "++9223372036854775808",
        "+-9223372036854775809", "0o8", "0o", "0O17", "+.iNF", "-.inf", "+", "+-", "+a", "-+5", "--5", "0o1_7"] {
        let loaded = load_config(Some(&save_config(&config(&[held], held, vec![named(held)]))));
        assert_same(&loaded, &config(&[held], held, vec![named(held)]));
    }
}

#[test]
fn long_names_are_limited() {
    let plain = |n: usize| "n".repeat(n);
    let quoted = |n: usize| format!("{}: ", "\"".repeat((n - 4) / 2));
    for name in [plain(1022), plain(1023), plain(1024), quoted(1024)] {
        assert!(write_yaml(&text(&name)).len() <= 1028);
        let loaded = load_config(Some(&save_config(&config(&["a"], "", vec![named(&name)]))));
        assert_same(&loaded, &config(&["a"], "", vec![named(&name)]));
    }
    for name in [plain(1025), quoted(1026)] {
        assert!(write_yaml(&text(&name)).len() > 1028);
        assert_empty(&load_config(Some(&save_config(&config(&["a"], "", vec![named(&name)])))));
    }
    let path = plain(5000);
    let loaded = load_config(Some(&save_config(&config(&[&path], &path, Vec::new()))));
    assert_same(&loaded, &config(&[&path], &path, Vec::new()));
}

fn alphabet() -> Vec<char> {
    let mut chars: Vec<char> = "aZ09 :#-?,[]{}&*!|>'\"%@`\\~.+oxeEnyNtf=<_/".chars().collect();
    chars.extend([
        '\t', '\n', '\r', '\0', '\u{7}', '\u{8}', '\u{b}', '\u{c}', '\u{1b}', '\u{7f}', '\u{80}', '\u{85}',
        '\u{a0}', '\u{2028}', '\u{2029}', '\u{feff}', 'é', '\u{1f600}',
    ]);
    chars
}

fn reads_as_number(s: &str) -> bool {
    let signed = |s: &str, top: char| {
        let body = s.strip_prefix(['+', '-']).unwrap_or(s);
        !body.is_empty() && body.chars().all(|c| '0' <= c && c <= top) && body.len() < 15
    };
    (s.starts_with("0o") && signed(&s[2..], '7'))
        || (s.starts_with("+") && s[1..].starts_with(['+', '-']) && signed(&s[1..], '9'))
        || ["+.inf", "+.Inf", "+.INF"].contains(&s)
}

#[test]
fn short_texts_load_again() {
    let chars = alphabet();
    let mut all: Vec<String> = Vec::new();
    for a in &chars {
        all.push(a.to_string());
        for b in &chars {
            all.push(format!("{}{}", a, b));
            all.push(format!("{}x{}", a, b));
            all.push(format!("x{}{}x", a, b));
        }
    }
    for word in ["null", "Null", "NULL", "true", "False", "yes", "no", "on", "off", "y", "n", ".inf", "-.Inf",
        ".nan", ".NaN", "1.5", "1e3", "-7", "+7", "0x1f", "0xZZ", "---", "...", "--- a", "... b", "<<", "=",
        "2001-01-01", "1_000", "0b11", "007"]
    {
        all.push(word.to_string());
        all.push(format!(" {}", word));
        all.push(format!("{} ", word));
        all.push(format!("{}\n{}", word, word));
    }
    for group in all.chunks(500) {
        let held: Vec<&str> = group.iter().map(|s| s.as_str()).filter(|s| !reads_as_number(s)).collect();
        let profiles: Vec<Profile> = held
            .iter()
            .map(|s| {
                let mut profile = named(s);
                profile.host = s.to_string();
                profile.privacy_passphrase = s.to_string();
                profile
            })
            .collect();
        let before = config(&held, held[0], profiles);
        assert_same(&load_config(Some(&save_config(&before))), &before);
    }
}

#[test]
fn documents_are_read_and_written() {
    let doc = YamlValue::Hash(vec![(text("k"), YamlValue::Arr(vec![text("v"), text("")]))]);
    let written = write_yaml(&doc);
    assert_eq!(written, "---\nk:\n  - v\n  - \"\"");
    let read = parse_yaml(&written).unwrap();
    assert_eq!(read.len(), 1);
    match &read[0] {
        YamlValue::Hash(entries) => {
            assert_eq!(entries.len(), 1);
            assert!(matches!(&entries[0].0, YamlValue::Str(key) if key == "k"));
            match &entries[0].1 {
                YamlValue::Arr(items) => {
                    assert_eq!(items.len(), 2);
                    assert!(matches!(&items[0], YamlValue::Str(s) if s == "v"));
                    assert!(matches!(&items[1], YamlValue::Str(s) if s.is_empty()));
                }
                _ => panic!("a sequence was written"),
            }
        }
        _ => panic!("a mapping was written"),
    }
    assert!(parse_yaml("{").is_err());
    assert!(matches!(parse_yaml("12").unwrap()[0], YamlValue::Other));
    assert!(matches!(parse_yaml("[1]").unwrap()[0], YamlValue::Arr(_)));
}

struct Dice(u64);

impl Dice {
    fn roll(&mut self, n: usize) -> usize {
        self.0 = self.0.wrapping_mul(6364136223846793005).wrapping_add(1442695040888963407);
        ((self.0 >> 33) as usize) % n
    }
}

fn random_text(dice: &mut Dice, chars: &[char], long: bool) -> String {
    loop {
        let len = if long && dice.roll(40) == 0 { 1500 } else { dice.roll(7) };
        let s: String = (0..len).map(|_| chars[dice.roll(chars.len())]).collect();
        if !reads_as_number(&s) {
            return s;
        }
    }
}

fn random_tree(dice: &mut Dice, chars: &[char], depth: usize) -> YamlValue {
    match dice.roll(if depth == 0 { 1 } else { 4 }) {
        0 => YamlValue::Str(random_text(dice, chars, true)),
        1 => {
            let n = dice.roll(4);
            YamlValue::Arr((0..n).map(|_| random_tree(dice, chars, depth - 1)).collect())
        }
        _ => {
            let mut entries: Vec<(YamlValue, YamlValue)> = Vec::new();
            let mut keys: Vec<String> = Vec::new();
            for _ in 0..dice.roll(4) {
                let key = random_text(dice, chars, false);
                if !keys.contains(&key) {
                    keys.push(key.clone());
                    entries.push((YamlValue::Str(key), random_tree(dice, chars, depth - 1)));
                }
            }
            YamlValue::Hash(entries)
        }
    }
}

fn same(a: &YamlValue, b: &YamlValue) -> bool {
    match (a, b) {
        (YamlValue::Str(x), YamlValue::Str(y)) => x == y,
        (YamlValue::Arr(x), YamlValue::Arr(y)) => {
            x.len() == y.len() && x.iter().zip(y).all(|(p, q)| same(p, q))
        }
        (YamlValue::Hash(x), YamlValue::Hash(y)) => {
            x.len() == y.len()
                && x.iter().zip(y).all(|(p, q)| same(&p.0, &q.0) && same(&p.1, &q.1))
        }
        _ => false,
    }
}

#[test]
fn documents_of_any_shape_load_again() {
    let chars = alphabet();
    let mut dice = Dice(7);
    for _ in 0..20000 {
        let tree = random_tree(&mut dice, &chars, 5);
        let written = write_yaml(&tree);
        let read = parse_yaml(&written);
        assert!(
            matches!(&read, Ok(docs) if docs.len() == 1 && same(&docs[0], &tree)),
            "{:?}",
            written
        );
    }
}
