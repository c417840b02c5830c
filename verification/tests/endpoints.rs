use jsonserve::config::Config;
use jsonserve::handler::handle_get;
use jsonserve::handler::HttpReply;
use jsonserve::keys::derive_key;
use jsonserve::keys::strip_leading_dot_slash;
use jsonserve::scanner::build_table;
use jsonserve::scanner::process_directory;
use jsonserve::scanner::process_entry;
use jsonserve::scanner::seeded_listing;
use jsonserve::scanner::DirListing;
use jsonserve::scanner::FileEntry;
use jsonserve::table::EndpointTable;

fn file(name: &str, content: &str) -> FileEntry {
    FileEntry { name: name.to_string(), content: content.to_string() }
}

fn listing(directory: &str, files: Vec<FileEntry>) -> DirListing {
    DirListing { directory: directory.to_string(), files }
}

fn get(table: &EndpointTable, path: &str) -> HttpReply {
    handle_get(table, &path.to_string())
}

#[test]
fn strip_removes_leading_dot_slash() {
    assert_eq!(strip_leading_dot_slash("./json"), "json");
    assert_eq!(strip_leading_dot_slash("json"), "json");
    assert_eq!(strip_leading_dot_slash("././a/b"), "a/b");
    assert_eq!(strip_leading_dot_slash("a/./b"), "a/./b");
    assert_eq!(strip_leading_dot_slash(""), "");
    assert_eq!(strip_leading_dot_slash("./"), "");
}

#[test]
fn derive_key_for_plain_json_file() {
    assert_eq!(derive_key("./json", "widgets.json"), Some("json/widgets".to_string()));
    assert_eq!(derive_key("data", "a.b.json"), Some("data/a.b".to_string()));
}

#[test]
fn derive_key_for_index_file() {
    assert_eq!(derive_key("./json", "index.json"), Some("json".to_string()));
    assert_eq!(derive_key("nested/dir", "index.json"), Some("nested/dir".to_string()));
}

#[test]
fn derive_key_skips_other_files() {
    assert_eq!(derive_key("./json", "readme.txt"), None);
    assert_eq!(derive_key("./json", "data.json.bak"), None);
    assert_eq!(derive_key("./json", ".json"), None);
    assert_eq!(derive_key("./json", "json"), None);
    assert_eq!(derive_key("./json", ""), None);
}

#[test]
fn table_get_returns_inserted_content() {
    let mut table = EndpointTable::new();
    table.insert("a".to_string(), "one".to_string());
    table.insert("b".to_string(), "two".to_string());
    assert_eq!(table.get(&"a".to_string()), Some("one".to_string()));
    assert_eq!(table.get(&"b".to_string()), Some("two".to_string()));
    assert_eq!(table.get(&"c".to_string()), None);
}

#[test]
fn table_insert_overwrites_same_key() {
    let mut table = EndpointTable::new();
    table.insert("a".to_string(), "old".to_string());
    table.insert("a".to_string(), "new".to_string());
    assert_eq!(table.get(&"a".to_string()), Some("new".to_string()));
    assert_eq!(table.keys().len(), 1);
}

#[test]
fn table_keys_lists_each_key_once() {
    let mut table = EndpointTable::new();
    table.insert("x".to_string(), "1".to_string());
    table.insert("y".to_string(), "2".to_string());
    table.insert("x".to_string(), "3".to_string());
    let mut keys = table.keys();
    keys.sort();
    assert_eq!(keys, vec!["x".to_string(), "y".to_string()]);
}

// The worked example: `./json/index.json` and `./json/widgets.json`.
#[test]
fn example_directory_is_served() {
    let listings = vec![listing(
        "./json",
        vec![file("index.json", "{\"a\":1}"), file("widgets.json", "{\"x\":2}")],
    )];
    let table = build_table(&listings);

    let root = get(&table, "json");
    assert_eq!(root.status, 200);
    assert_eq!(root.body, "{\"a\":1}");

    let widgets = get(&table, "json/widgets");
    assert_eq!(widgets.status, 200);
    assert_eq!(widgets.body, "{\"x\":2}");

    let missing = get(&table, "json/missing");
    assert_eq!(missing.status, 404);
    assert_eq!(missing.body, "");
}

// A plain `stem.json` file is served under `directory/stem`.
#[test]
fn plain_file_served_under_directory_and_stem() {
    let listings = vec![listing("./api", vec![file("users.json", "[1,2,3]")])];
    let table = build_table(&listings);
    let reply = get(&table, "api/users");
    assert_eq!(reply.status, 200);
    assert_eq!(reply.body, "[1,2,3]");
}

// An `index.json` file is served under the directory key itself.
#[test]
fn index_file_served_under_directory_key() {
    let listings = vec![listing("./api", vec![file("index.json", "{\"root\":true}")])];
    let table = build_table(&listings);
    let reply = get(&table, "api");
    assert_eq!(reply.status, 200);
    assert_eq!(reply.body, "{\"root\":true}");
}

// A directory seeded at startup serves the generated content at its key.
#[test]
fn seeded_directory_served_with_generated_content() {
    let seeded = seeded_listing("./fresh".to_string(), "{\"seed\":0}".to_string());
    assert_eq!(seeded.directory, "./fresh");
    assert_eq!(seeded.files.len(), 1);
    assert_eq!(seeded.files[0].name, "index.json");
    assert_eq!(seeded.files[0].content, "{\"seed\":0}");

    let table = build_table(&vec![seeded]);
    let reply = get(&table, "fresh");
    assert_eq!(reply.status, 200);
    assert_eq!(reply.body, "{\"seed\":0}");
}

// A key no configured file derives is answered 404 with an empty body.
#[test]
fn unknown_paths_rejected_with_404() {
    let listings = vec![listing("./json", vec![file("index.json", "{}")])];
    let table = build_table(&listings);
    for path in ["", "jsonx", "json/", "json/index", "index.json", "./json", "other"] {
        let reply = get(&table, path);
        assert_eq!(reply.status, 404);
        assert_eq!(reply.body, "");
    }
}

// Two directories deriving the same key: the table holds one entry, and the
// directory configured later decides its content.
#[test]
fn duplicate_key_later_directory_wins() {
    // `./dup` and `dup` both derive the key `dup`; `dup` comes later in the
    // configured order, so its content must win.
    let listings = vec![
        listing("./dup", vec![file("index.json", "first")]),
        listing("dup", vec![file("index.json", "second")]),
    ];
    let table = build_table(&listings);
    let reply = get(&table, "dup");
    assert_eq!(reply.status, 200);
    assert_eq!(reply.body, "second");
    assert_eq!(table.keys().len(), 1);
}

// Within one directory, the file enumerated later wins: `index.json` and
// `index.json` cannot collide, but `x.json` in two spellings of the same
// directory can; here the later file in the same listing wins.
#[test]
fn duplicate_key_later_file_wins() {
    let mut table = EndpointTable::new();
    let l = listing("./a", vec![file("x.json", "early"), file("x.json", "late")]);
    process_directory(&mut table, &l);
    assert_eq!(table.get(&"a/x".to_string()), Some("late".to_string()));
    assert_eq!(table.keys().len(), 1);
}

#[test]
fn process_entry_inserts_only_json_files() {
    let mut table = EndpointTable::new();
    process_entry(&mut table, "./a", "notes.txt", "ignored".to_string());
    assert_eq!(table.keys().len(), 0);
    process_entry(&mut table, "./a", "b.json", "kept".to_string());
    assert_eq!(table.get(&"a/b".to_string()), Some("kept".to_string()));
}

// Many lookups against one shared table: every reply matches its own source
// file, with no cross-talk between distinct or repeated paths.
#[test]
fn many_lookups_all_match_their_sources() {
    let mut files = Vec::new();
    for i in 0..10 {
        files.push(file(&format!("f{}.json", i), &format!("{{\"n\":{}}}", i)));
    }
    let listings = vec![listing("./bulk", files)];
    let table = build_table(&listings);
    for round in 0..10 {
        for i in 0..10 {
            let reply = get(&table, &format!("bulk/f{}", i));
            assert_eq!(reply.status, 200);
            assert_eq!(reply.body, format!("{{\"n\":{}}}", i));
            let miss = get(&table, &format!("bulk/g{}", round));
            assert_eq!(miss.status, 404);
            assert_eq!(miss.body, "");
        }
    }
}

#[test]
fn default_config_values() {
    let config = Config::default();
    assert_eq!(config.host, "localhost");
    assert_eq!(config.port, 3000);
    assert_eq!(config.json_directories, vec!["./json".to_string()]);
}
