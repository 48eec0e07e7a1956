use upload::append::{
    append_config_command, append_envs, config_addendum, rust_addendum, update_command, APPEND_NUM,
};
use upload::args::unwrap_keys;
use upload::files::{classify_path, last_segment, return_upload_or_update_cmd, FileId, PathFilter};
use upload::folders::{
    list_command, mkdir_command, return_base_directory, return_parent, reuse_existing,
    unwrap_new_dir, BaseDirectory,
};
use upload::query::{unwrap_gdrive_query, GdriveQuery};
use upload::share::{share, unwrap_share};
use upload::walk::{folder_action, next_action, EntryAction, FolderAction, Frame, Walk, WalkStep};
use upload::text::{
    chars_of, is_whitespace_char, lines_of, str_contains, trim_end_of, words_of,
};
use upload::trash::{
    confirms_deletion, delete_trash_command, gdrive_trash_query, is_not_trashed, is_trashed,
    prompts_for_deletion, trash_step, TrashStep,
};

const LISTING: &str = "Id                                  Name        Type   Size     Created\n\
1AbCdEf                             hw1         dir             2022-02-01 10:00:00\n\
2GhIjKl                             hw10        dir             2022-02-02 11:00:00\n\
3MnOpQr                             main.rs     bin    1.2 KB   2022-02-03 12:00:00\n";

fn strings(v: &[&str]) -> Vec<String> {
    v.iter().map(|s| s.to_string()).collect()
}

fn entry(id: &str, update: bool) -> GdriveQuery {
    GdriveQuery {
        id: id.to_string(),
        name: "n".to_string(),
        gtype: "dir".to_string(),
        dob: "d".to_string(),
        age: "a".to_string(),
        update,
    }
}

// ---- text ----

const SAMPLES: [&str; 14] = [
    "",
    "a",
    "\n",
    "\n\n",
    "a\nb",
    "a\nb\n",
    "a\r\nb\r\n",
    "a\r",
    "a\r\r\n",
    "  lead and trail  ",
    "tab\tsep\u{a0}nbsp\u{3000}ideo",
    "one,two,,three,",
    "über/straße/ß",
    ",",
];

#[test]
fn lines_match_str_lines() {
    for s in SAMPLES {
        let expected: Vec<String> = s.lines().map(|l| l.to_string()).collect();
        assert_eq!(lines_of(s), expected, "lines of {:?}", s);
    }
}

#[test]
fn lines_examples() {
    assert_eq!(lines_of("a\r\nb\n"), strings(&["a", "b"]));
    assert_eq!(lines_of("a\r"), strings(&["a\r"]));
    assert_eq!(lines_of(""), Vec::<String>::new());
    assert_eq!(lines_of("\n"), strings(&[""]));
}

#[test]
fn words_match_split_whitespace() {
    for s in SAMPLES {
        let expected: Vec<String> = s.split_whitespace().map(|l| l.to_string()).collect();
        assert_eq!(words_of(s), expected, "words of {:?}", s);
    }
}

#[test]
fn trim_end_matches_str_trim_end() {
    for s in SAMPLES {
        assert_eq!(trim_end_of(s), s.trim_end().to_string(), "trim_end of {:?}", s);
    }
    assert_eq!(trim_end_of("hw1 \n\t"), "hw1");
}

#[test]
fn contains_matches_str_contains() {
    let needles = ["", "a", ".git", "b\n", "ß", "two,,", "zzz"];
    for s in SAMPLES {
        for n in needles {
            assert_eq!(str_contains(s, n), s.contains(n), "{:?} in {:?}", n, s);
        }
    }
    assert!(str_contains("./.gitignore", ".git"));
    assert!(!str_contains("./git", ".git"));
}

#[test]
fn whitespace_matches_char_is_whitespace() {
    for u in 0u32..0x110000 {
        if let Some(c) = char::from_u32(u) {
            assert_eq!(is_whitespace_char(c), c.is_whitespace(), "U+{:04X}", u);
        }
    }
}

#[test]
fn chars_of_example() {
    assert_eq!(chars_of("aß€"), vec!['a', 'ß', '€']);
}

// ---- query ----

#[test]
fn unwrap_gdrive_query_finds_exact_name() {
    let line = unwrap_gdrive_query(LISTING.to_string(), &"hw1".to_string());
    assert!(line.starts_with("1AbCdEf"));
    let line = unwrap_gdrive_query(LISTING.to_string(), &"hw10\n".to_string());
    assert!(line.starts_with("2GhIjKl"));
}

#[test]
fn unwrap_gdrive_query_exact_terms_only() {
    let listing = "Id Name Type Size Created\n1XyZ old_hw1 dir 2022-02-25 10:00:00\n".to_string();
    assert_eq!(unwrap_gdrive_query(listing.clone(), &"hw1".to_string()), "");
    assert_eq!(unwrap_gdrive_query(listing.clone(), &"old_hw".to_string()), "");
    assert_eq!(
        unwrap_gdrive_query(listing, &"old_hw1".to_string()),
        "1XyZ old_hw1 dir 2022-02-25 10:00:00"
    );
    let tabbed = "header\nid1\thw1\tdir\ta\tb\n".to_string();
    assert_eq!(unwrap_gdrive_query(tabbed, &"hw1".to_string()), "");
    let tab_then_space = "Id Name Type Size Created\n1Id hw1\t dir 2022-02-25 10:00:00\n".to_string();
    assert_eq!(unwrap_gdrive_query(tab_then_space.clone(), &"hw1".to_string()), "");
    assert!(!GdriveQuery::query(tab_then_space.clone(), &"hw1".to_string()).update);
    assert_eq!(gdrive_trash_query(tab_then_space, &"hw1".to_string()), "");
    let after_tab = "header\nid1\thw1 dir a b\n".to_string();
    assert_eq!(unwrap_gdrive_query(after_tab, &"hw1".to_string()), "id1\thw1 dir a b");
    let at_end = "header\nid1 x dir a hw1".to_string();
    assert_eq!(unwrap_gdrive_query(at_end, &"hw1".to_string()), "");
}

#[test]
fn unwrap_gdrive_query_skips_header_and_misses() {
    assert_eq!(unwrap_gdrive_query(LISTING.to_string(), &"Name".to_string()), "");
    assert_eq!(unwrap_gdrive_query(LISTING.to_string(), &"hw".to_string()), "");
    assert_eq!(unwrap_gdrive_query(String::new(), &"hw1".to_string()), "");
}

#[test]
fn gdrive_query_unwrap_takes_first_five_words() {
    let q = GdriveQuery::unwrap(&"1AbCdEf  hw1 dir 2022-02-01 10:00:00 extra".to_string());
    assert_eq!(q.id, "1AbCdEf");
    assert_eq!(q.name, "hw1");
    assert_eq!(q.gtype, "dir");
    assert_eq!(q.dob, "2022-02-01");
    assert_eq!(q.age, "10:00:00");
    assert!(q.update);
    assert!(q.is_dir());
}

#[test]
fn gdrive_query_is_none_on_empty() {
    let q = GdriveQuery::is_none(&String::new());
    assert_eq!(q.id, "");
    assert_eq!(q.name, "");
    assert_eq!(q.gtype, "");
    assert!(!q.update);
    assert!(!q.is_dir());
}

#[test]
fn gdrive_query_query_on_listing() {
    let q = GdriveQuery::query(LISTING.to_string(), &"main.rs".to_string());
    assert_eq!(q.id, "3MnOpQr");
    assert_eq!(q.gtype, "bin");
    assert!(!q.is_dir());
    assert!(q.update);
    let none = GdriveQuery::query(LISTING.to_string(), &"absent".to_string());
    assert!(!none.update);
}

#[test]
fn entry_columns_read_back() {
    let line = ["id1", "name", "dir", "2022-02-01", "10:00:00"].join(" ");
    let q = GdriveQuery::unwrap(&line);
    assert_eq!(
        vec![q.id, q.name, q.gtype, q.dob, q.age],
        strings(&["id1", "name", "dir", "2022-02-01", "10:00:00"])
    );
}

// ---- files ----

#[test]
fn file_id_get() {
    let folder = entry("folder", true);
    let missing_folder = entry("", false);
    assert_eq!(FileId::get(&folder, &Some(entry("file", true))), "file");
    assert_eq!(FileId::get(&folder, &Some(entry("", false))), "");
    assert_eq!(FileId::get(&folder, &None), "");
    assert_eq!(FileId::get(&missing_folder, &Some(entry("file", true))), "");
}

#[test]
fn upload_or_update_command() {
    let id = "F1".to_string();
    let parent = "P1".to_string();
    let path = "./a.txt".to_string();
    assert_eq!(
        return_upload_or_update_cmd(&id, &parent, &path, false),
        "gdrive update F1 ./a.txt"
    );
    assert_eq!(
        return_upload_or_update_cmd(&id, &parent, &path, true),
        "gdrive upload --parent P1 ./a.txt"
    );
    assert_eq!(
        return_upload_or_update_cmd(&String::new(), &parent, &path, false),
        "gdrive upload --parent P1 ./a.txt"
    );
}

#[test]
fn classify_paths() {
    let ignore = strings(&["./secret.txt", "./build"]);
    assert_eq!(classify_path("./.git", &ignore), PathFilter::Skip);
    assert_eq!(classify_path("./Main.class", &ignore), PathFilter::Skip);
    assert_eq!(classify_path("./.driveignore", &ignore), PathFilter::Skip);
    assert_eq!(classify_path("./secret.txt", &ignore), PathFilter::Ignore);
    assert_eq!(classify_path("./secret.txt2", &ignore), PathFilter::Keep);
    assert_eq!(classify_path("./main.rs", &Vec::new()), PathFilter::Keep);
}

#[test]
fn last_segments() {
    assert_eq!(last_segment("./src/main.rs"), "main.rs");
    assert_eq!(last_segment("main.rs"), "main.rs");
    assert_eq!(last_segment("dir/"), "");
    for p in ["./a/b", "x", "/", "a//b", ""] {
        assert_eq!(last_segment(p), p.split('/').last().unwrap());
    }
}

// ---- folders ----

#[test]
fn return_parent_looks_up_courses() {
    let courses = vec![
        ("160".to_string(), "ID160".to_string()),
        ("projects".to_string(), "IDP".to_string()),
        ("160".to_string(), "ID160b".to_string()),
    ];
    assert_eq!(return_parent("projects", &courses), "IDP");
    assert_eq!(return_parent("160", &courses), "ID160b");
    assert_eq!(return_parent("1XyZfolder", &courses), "1XyZfolder");
}

fn reference_new_dir(mut directory: String) -> String {
    for _ in 0..8 {
        directory.pop();
    }
    directory[10..].to_owned()
}

#[test]
fn unwrap_new_dir_reads_id() {
    assert_eq!(unwrap_new_dir("Directory 1AbC created".to_string()), "1AbC");
    let out = "Directory 1XyZ created\n".to_string();
    assert_eq!(unwrap_new_dir(out.clone()), "1XyZ");
    assert_eq!(unwrap_new_dir(out.clone()), reference_new_dir(out).trim_end());
    assert_eq!(unwrap_new_dir("Directory 1AbC created\n".to_string()), "1AbC");
    let wide = "Directoré xyz created".to_string();
    assert_eq!(unwrap_new_dir(wide.clone()), reference_new_dir(wide).trim_end());
}

#[test]
fn reuse_and_base_directory() {
    let found = entry("EXIST", true);
    let absent = entry("", false);
    assert!(reuse_existing(&found, true));
    assert!(!reuse_existing(&found, false));
    assert!(!reuse_existing(&absent, true));
    let parent = "PARENT".to_string();
    let name = "hw1\n".to_string();
    match return_base_directory(&found, &parent, &name, false, false) {
        BaseDirectory::Existing(id) => assert_eq!(id, "PARENT"),
        BaseDirectory::Create(_) => panic!("nested directory is not created"),
    }
    match return_base_directory(&found, &parent, &name, true, true) {
        BaseDirectory::Existing(id) => assert_eq!(id, "EXIST"),
        BaseDirectory::Create(_) => panic!("found folder is reused"),
    }
    match return_base_directory(&found, &parent, &name, true, false) {
        BaseDirectory::Create(cmd) => assert_eq!(cmd, "gdrive mkdir --parent PARENT hw1\n"),
        BaseDirectory::Existing(_) => panic!("trashed folder is not reused"),
    }
}

#[test]
fn folder_commands() {
    assert_eq!(mkdir_command("P", "sub"), "gdrive mkdir --parent P sub");
    assert_eq!(list_command("P"), "gdrive list --query \" 'P' in parents \"");
}

// ---- walk ----

fn frame(folder: &str, name: &str, base_case: bool, entries: &[&str]) -> Frame {
    Frame::new(folder.to_string(), name.to_string(), entry(folder, true), base_case, strings(entries))
}

fn entry_of(step: WalkStep) -> String {
    match step {
        WalkStep::Entry(p) => p,
        WalkStep::Leave { .. } => panic!("expected an entry, got a leave"),
        WalkStep::Done => panic!("expected an entry, got the end"),
    }
}

fn leave_of(step: WalkStep) -> bool {
    match step {
        WalkStep::Leave { stop } => stop,
        _ => panic!("expected a leave"),
    }
}

#[test]
fn walk_hands_out_every_nested_entry_depth_first() {
    let mut walk = Walk::new();
    walk.enter(frame("TOP", "hw\n", true, &["./a", "./sub", "./z"]));
    assert_eq!(entry_of(walk.next()), "./a");
    assert_eq!(entry_of(walk.next()), "./sub");
    assert_eq!(walk.current().folder_id(), "TOP");
    walk.enter(frame("SUB", "sub\n", false, &["./sub/b", "./sub/c"]));
    assert_eq!(walk.current().base_dir(), "sub\n");
    assert!(!walk.current().base_case());
    assert_eq!(entry_of(walk.next()), "./sub/b");
    assert_eq!(entry_of(walk.next()), "./sub/c");
    assert!(!leave_of(walk.next()));
    assert_eq!(walk.current().folder_id(), "TOP");
    assert!(walk.current().listing().update);
    assert_eq!(entry_of(walk.next()), "./z");
    assert!(leave_of(walk.next()));
    assert!(matches!(walk.next(), WalkStep::Done));
    assert!(matches!(walk.next(), WalkStep::Done));
}

#[test]
fn walk_empty_directory() {
    let mut walk = Walk::new();
    assert!(matches!(walk.next(), WalkStep::Done));
    walk.enter(frame("TOP", "hw", true, &[]));
    assert!(leave_of(walk.next()));
    assert!(matches!(walk.next(), WalkStep::Done));
}

#[test]
fn next_actions() {
    let ignore = strings(&["./secret.txt"]);
    assert!(matches!(next_action("./.git", &ignore, true), EntryAction::Skip));
    assert!(matches!(next_action("./secret.txt", &ignore, false), EntryAction::Ignore));
    match next_action("./src", &ignore, true) {
        EntryAction::Folder { name } => assert_eq!(name, "src"),
        other => panic!("unexpected {:?}", other),
    }
    match next_action("./src/main.rs", &ignore, false) {
        EntryAction::File { name } => assert_eq!(name, "main.rs"),
        other => panic!("unexpected {:?}", other),
    }
}

#[test]
fn folder_actions() {
    let f = frame("PARENT", "hw\n", true, &[]);
    match folder_action(&f, "./sub", &entry("SUBID", true), true) {
        FolderAction::Enter { course, dir, base_dir } => {
            assert_eq!(course, "PARENT");
            assert_eq!(dir, "./sub");
            assert_eq!(base_dir, "sub\n");
        },
        FolderAction::Create { .. } => panic!("an existing folder is entered"),
    }
    match folder_action(&f, "./sub", &entry("SUBID", true), false) {
        FolderAction::Create { command, dir, base_dir } => {
            assert_eq!(command, "gdrive mkdir --parent PARENT sub");
            assert_eq!(dir, "./sub");
            assert_eq!(base_dir, "hw\n");
        },
        FolderAction::Enter { .. } => panic!("a trashed folder is created anew"),
    }
    assert!(matches!(
        folder_action(&f, "./sub", &entry("", false), true),
        FolderAction::Create { .. }
    ));
}

// ---- share ----

#[test]
fn share_commands() {
    assert_eq!(unwrap_share("a@x.com,b@y.com"), strings(&["a@x.com", "b@y.com"]));
    assert_eq!(unwrap_share(""), strings(&[""]));
    assert_eq!(unwrap_share("a,,b,"), strings(&["a", "", "b", ""]));
    assert_eq!(
        share("a@x.com,b@y.com", "D1"),
        strings(&[
            "gdrive share --type user --role writer --email a@x.com D1",
            "gdrive share --type user --role writer --email b@y.com D1",
        ])
    );
    assert!(share("", "D1").is_empty());
}

#[test]
fn share_split_joins_back() {
    for s in ["a@x.com,b@y.com", "", ",", "a,,b,"] {
        let parts = unwrap_share(s);
        assert_eq!(parts.join(","), s);
        assert!(parts.iter().all(|p| !p.contains(',')));
    }
}

// ---- args ----

#[test]
fn unwrap_keys_values() {
    assert_eq!(unwrap_keys(Some("160"), true), "160");
    assert_eq!(unwrap_keys(Some("x"), false), "x");
    assert_eq!(unwrap_keys(None, false), "");
}

// ---- trash ----

#[test]
fn trash_queries() {
    let listing = LISTING.to_string();
    assert!(gdrive_trash_query(listing.clone(), &"hw1".to_string()).starts_with("1AbCdEf"));
    assert!(is_trashed(listing.clone(), &"hw10".to_string()));
    assert!(!is_not_trashed(listing.clone(), &"hw10".to_string()));
    assert!(!is_trashed(listing.clone(), &"other".to_string()));
    assert!(is_not_trashed(listing, &"other".to_string()));
}

#[test]
fn trash_prompt_and_delete() {
    let line = "1AbCdEf hw1 dir 2022-02-01 10:00:00".to_string();
    assert!(prompts_for_deletion(&line, true));
    assert!(!prompts_for_deletion(&line, false));
    assert!(!prompts_for_deletion(&String::new(), true));
    assert!(confirms_deletion("y"));
    assert!(confirms_deletion("Y"));
    assert!(!confirms_deletion("yes"));
    assert!(!confirms_deletion("n"));
    assert!(!confirms_deletion(""));
    for a in ["y", "Y", "yes", "n", "", "ÿ", "Ÿ"] {
        assert_eq!(confirms_deletion(a), a.to_uppercase() == "Y");
    }
    assert_eq!(delete_trash_command(&line), "gdrive delete -r 1AbCdEf");
}

#[test]
fn trash_steps() {
    let line = "1AbCdEf hw1 dir 2022-02-01 10:00:00".to_string();
    assert!(matches!(trash_step(&line, true, None), TrashStep::Ask));
    assert!(matches!(trash_step(&line, false, None), TrashStep::Done { trashed: true }));
    assert!(matches!(trash_step(&String::new(), true, None), TrashStep::Done { trashed: false }));
    assert!(matches!(trash_step(&line, true, Some("n")), TrashStep::Done { trashed: true }));
    match trash_step(&line, true, Some("Y")) {
        TrashStep::Delete { command, trashed } => {
            assert_eq!(command, "gdrive delete -r 1AbCdEf");
            assert!(trashed);
        },
        _ => panic!("a confirmed deletion deletes"),
    }
}

#[test]
fn only_y_upper_cases_to_y() {
    for u in 0u32..0x110000 {
        if let Some(c) = char::from_u32(u) {
            let s = c.to_string();
            assert_eq!(confirms_deletion(&s), s.to_uppercase() == "Y", "U+{:04X}", u);
        }
    }
}

// ---- append ----

fn table_source(n: usize) -> String {
    (0..n).map(|i| format!("line {}\n", i)).collect()
}

#[test]
fn append_envs_inserts_entry() {
    let contents = table_source(40);
    let out = append_envs("cse", &contents);
    let before: Vec<&str> = contents.lines().collect();
    let after: Vec<&str> = out.lines().collect();
    let mut expected = before.clone();
    let entry = "        (\"cse\", env::var(\"UPLOADcse\").unwrap()),";
    expected.insert(APPEND_NUM + 1, entry);
    assert_eq!(after, expected);
    assert!(out.ends_with('\n'));
}

#[test]
fn append_envs_on_exact_length() {
    let contents = "x\r\n".repeat(34);
    let out = append_envs("k", &contents);
    assert_eq!(out.lines().count(), 35);
    assert_eq!(out.lines().nth(34), Some("        (\"k\", env::var(\"UPLOADk\").unwrap()),"));
}

#[test]
fn append_commands() {
    assert_eq!(config_addendum("cse", "1AbC"), "cse=1AbC");
    assert_eq!(
        append_config_command("cse=1AbC", "/home/u/.env"),
        "sudo echo \"cse=1AbC\" >> /home/u/.env"
    );
    assert_eq!(rust_addendum("k"), "        (\"k\", env::var(\"UPLOADk\").unwrap()),");
    assert_eq!(update_command("/opt/up"), "cd /opt/up && ./update ");
}
