use std::collections::HashMap;

use clipdmenu::capture::{capture_text, copied_entry};
use clipdmenu::index::{index_text, upsert};
use clipdmenu::ipc::handle_select;
use clipdmenu::keep::{begin_upsert, keep_text, Upsert, UpsertAction};
use clipdmenu::store::write_index;
use clipdmenu::{
    ensure_dirs, entry_mime, entry_path, hash_bytes, index_path, last_image_data_path,
    last_image_meta_path, read_index, read_last_image, save_last_image, store_entry, upsert_entry,
    Entry, Environment, FileOp, DEFAULT_MAX_ITEMS,
};

type Files = HashMap<Vec<u8>, Vec<u8>>;

fn env() -> Environment {
    Environment {
        cache_dir: Some("/c".to_string()),
        xdg_cache_home: None,
        home: None,
        runtime_dir: None,
    }
}

fn entry(hash: &str, mime: &str, preview: &str) -> Entry {
    Entry { hash: hash.to_string(), mime: mime.to_string(), preview: preview.to_string() }
}

fn fields(e: &Entry) -> (&str, &str, &str) {
    (e.hash.as_str(), e.mime.as_str(), e.preview.as_str())
}

fn perform(files: &mut Files, ops: Vec<FileOp>) {
    for op in ops {
        match op {
            FileOp::CreateDirAll { .. } => {}
            FileOp::Write { path, data } => {
                files.insert(path, data);
            }
            FileOp::Remove { path } => {
                files.remove(&path);
            }
            FileOp::Rename { from, to } => {
                let data = files.remove(&from).unwrap();
                files.insert(to, data);
            }
        }
    }
}

fn index_of(files: &Files) -> Option<String> {
    files.get(&index_path(&env())).map(|b| String::from_utf8(b.clone()).unwrap())
}

fn run(files: &mut Files, begun: (Upsert, UpsertAction)) {
    let e = env();
    let (mut upsert, mut action) = begun;
    loop {
        (upsert, action) = match action {
            UpsertAction::Perform { ops } => {
                perform(files, ops);
                assert!(upsert.is_performing());
                upsert.on_performed(&e)
            }
            UpsertAction::LookFor { path } => {
                assert!(upsert.is_looking());
                upsert.on_look(&e, files.contains_key(&path))
            }
            UpsertAction::ReadText { path } => {
                assert!(upsert.is_reading());
                let text = files.get(&path).and_then(|b| String::from_utf8(b.clone()).ok());
                upsert.on_index(&e, text.as_deref())
            }
            UpsertAction::Finish => return,
        };
    }
}

fn put(files: &mut Files, new: Entry, data: &[u8], max_items: usize) {
    run(files, begin_upsert(&env(), new, data.to_vec(), max_items));
}

fn copy(files: &mut Files, text: &str, max_items: usize) -> String {
    let kept = capture_text(text.as_bytes().to_vec()).unwrap();
    let hash = kept.hash.clone();
    run(files, keep_text(&env(), kept, max_items));
    hash
}

fn previews(files: &Files) -> Vec<String> {
    read_index(index_of(files).as_deref()).into_iter().map(|e| e.preview).collect()
}

#[test]
fn line_of_an_entry() {
    let e = entry("h", "text/plain", "a\tb");
    assert_eq!(e.to_line(), "h\ttext/plain\ta\tb");
    let back = Entry::from_line(&e.to_line()).unwrap();
    assert_eq!(fields(&back), ("h", "text/plain", "a\tb"));
}

#[test]
fn entry_of_a_line() {
    assert_eq!(fields(&Entry::from_line("h\tm").unwrap()), ("h", "m", ""));
    assert_eq!(fields(&Entry::from_line("h\t").unwrap()), ("h", "", ""));
    assert_eq!(fields(&Entry::from_line("h\t\t").unwrap()), ("h", "", ""));
    assert_eq!(fields(&Entry::from_line("h\tm\t").unwrap()), ("h", "m", ""));
    assert_eq!(fields(&Entry::from_line("h\tm\tp\tq").unwrap()), ("h", "m", "p\tq"));
    assert!(Entry::from_line("").is_none());
    assert!(Entry::from_line("h").is_none());
    assert!(Entry::from_line("\tm\tp").is_none());
    assert!(Entry::from_line("\t").is_none());
}

#[test]
fn index_is_read_line_by_line() {
    assert_eq!(read_index(None).len(), 0);
    assert_eq!(read_index(Some("")).len(), 0);
    let read = read_index(Some("a\tm\tx\n\nbroken\nb\tm\ty\r\nc\tm\tz\r"));
    let got: Vec<(&str, &str, &str)> = read.iter().map(fields).collect();
    assert_eq!(got, vec![("a", "m", "x"), ("b", "m", "y"), ("c", "m", "z\r")]);
}

#[test]
fn written_index_is_read_back() {
    let entries =
        vec![entry("a", "text/plain", "one"), entry("b", "", ""), entry("c", "m", "t\tt")];
    let text = index_text(&entries);
    assert_eq!(text, "a\ttext/plain\tone\nb\t\t\nc\tm\tt\tt\n");
    let read = read_index(Some(&text));
    let got: Vec<(&str, &str, &str)> = read.iter().map(fields).collect();
    let want: Vec<(&str, &str, &str)> = entries.iter().map(fields).collect();
    assert_eq!(got, want);
    assert_eq!(index_text(&Vec::new()), "");
}

#[test]
fn mime_type_of_the_first_entry_of_a_hash() {
    let index = "a\tm1\tx\nb\tm2\ty\na\tm3\tz\n";
    assert_eq!(entry_mime(Some(index), "a"), Some("m1".to_string()));
    assert_eq!(entry_mime(Some(index), "b"), Some("m2".to_string()));
    assert_eq!(entry_mime(Some(index), "c"), None);
    assert_eq!(entry_mime(None, "a"), None);
}

#[test]
fn upsert_moves_to_the_head_and_drops_the_tail() {
    let mut entries = vec![
        entry("a", "m", "1"),
        entry("b", "m", "2"),
        entry("a", "m", "3"),
        entry("c", "m", "4"),
    ];
    let gone = upsert(&mut entries, entry("a", "n", "new"), 10);
    assert!(gone.is_empty());
    let got: Vec<(&str, &str, &str)> = entries.iter().map(fields).collect();
    assert_eq!(got, vec![("a", "n", "new"), ("b", "m", "2"), ("c", "m", "4")]);
    let gone = upsert(&mut entries, entry("d", "m", "5"), 2);
    assert_eq!(gone, vec!["c", "b"]);
    let got: Vec<&str> = entries.iter().map(|e| e.hash.as_str()).collect();
    assert_eq!(got, vec!["d", "a"]);
    let gone = upsert(&mut entries, entry("e", "m", "6"), 0);
    assert_eq!(gone, vec!["a", "d", "e"]);
    assert!(entries.is_empty());
}

#[test]
fn operations_of_an_upsert() {
    let ops = upsert_entry(&env(), "n", "text/plain", "new", 2, Some("a\tm\t1\nb\tm\t2\n"));
    assert_eq!(
        ops,
        vec![
            FileOp::Remove { path: b"/c/entries/b".to_vec() },
            FileOp::CreateDirAll { path: b"/c/entries".to_vec() },
            FileOp::Write {
                path: b"/c/index.tsv.tmp".to_vec(),
                data: b"n\ttext/plain\tnew\na\tm\t1\n".to_vec(),
            },
            FileOp::Rename {
                from: b"/c/index.tsv.tmp".to_vec(),
                to: b"/c/index.tsv".to_vec(),
            },
        ]
    );
    assert_eq!(ensure_dirs(&env()), vec![FileOp::CreateDirAll { path: b"/c/entries".to_vec() }]);
    assert_eq!(write_index(&env(), &Vec::new()).len(), 3);
}

#[test]
fn bytes_are_stored_once() {
    assert_eq!(
        store_entry(&env(), "h", b"data", false),
        vec![FileOp::Write { path: b"/c/entries/h".to_vec(), data: b"data".to_vec() }]
    );
    assert!(store_entry(&env(), "h", b"data", true).is_empty());
}

#[test]
fn copied_texts_head_the_history() {
    let mut files = Files::new();
    copy(&mut files, "one", DEFAULT_MAX_ITEMS);
    copy(&mut files, "two\nlines", DEFAULT_MAX_ITEMS);
    copy(&mut files, "three", DEFAULT_MAX_ITEMS);
    assert_eq!(previews(&files), vec!["three", "two lines  [2 lines]", "one"]);
    copy(&mut files, "one", DEFAULT_MAX_ITEMS);
    assert_eq!(previews(&files), vec!["one", "three", "two lines  [2 lines]"]);
    let before = files.clone();
    copy(&mut files, "one", DEFAULT_MAX_ITEMS);
    assert_eq!(files, before);
}

#[test]
fn copied_text_is_kept_as_plain_text() {
    let kept = capture_text(b"  two\nlines ".to_vec()).unwrap();
    let (e, data) = copied_entry(kept);
    let hash = hash_bytes(b"  two\nlines ");
    assert_eq!(fields(&e), (hash.as_str(), "text/plain", "two lines  [2 lines]"));
    assert_eq!(data, b"  two\nlines ".to_vec());
    let mut files = Files::new();
    copy(&mut files, "a", 3);
    let index = index_of(&files).unwrap();
    assert_eq!(index, format!("{}\ttext/plain\ta\n", hash_bytes(b"a")));
}

#[test]
fn index_and_entry_files_agree() {
    let mut files = Files::new();
    for i in 0..50 {
        let text = format!("text number {}", i % 13);
        copy(&mut files, &text, 5);
        let entries = read_index(index_of(&files).as_deref());
        assert!(entries.len() <= 5);
        assert_eq!(files.len(), entries.len() + 1);
        for e in &entries {
            let data = &files[&entry_path(&env(), &e.hash)];
            assert_eq!(hash_bytes(data), e.hash);
        }
        assert_eq!(entries[0].preview, text);
    }
}

#[test]
fn interrupted_upsert_keeps_the_history() {
    let mut files = Files::new();
    for text in ["a", "b", "c", "d"] {
        copy(&mut files, text, 4);
    }
    let old = previews(&files);
    let all_ops = || {
        let mut ops = ensure_dirs(&env());
        ops.extend(store_entry(&env(), "e", b"bytes", false));
        ops.extend(upsert_entry(&env(), "e", "m", "e", 2, index_of(&files).as_deref()));
        ops
    };
    let total = all_ops().len();
    assert_eq!(total, 8);
    for done in 0..=total {
        let mut now = files.clone();
        let mut ops = all_ops();
        let rest = ops.split_off(done);
        perform(&mut now, ops);
        let want = if done < total { old.clone() } else { vec!["e".to_string(), "d".to_string()] };
        assert_eq!(previews(&now), want);
        if let Some(FileOp::Write { path, .. }) = rest.first() {
            now.insert(path.clone(), b"torn".to_vec());
            assert_eq!(previews(&now), want);
        }
    }
}

#[test]
fn steps_of_an_upsert() {
    let e = env();
    let (upsert, action) = begin_upsert(&e, entry("h", "m", "p"), b"data".to_vec(), 3);
    assert_eq!(action, UpsertAction::Perform { ops: ensure_dirs(&e) });
    assert!(upsert.is_performing() && !upsert.is_looking() && !upsert.is_reading());
    let (upsert, action) = upsert.on_performed(&e);
    assert_eq!(action, UpsertAction::LookFor { path: b"/c/entries/h".to_vec() });
    assert!(upsert.is_looking());
    let (upsert, action) = upsert.on_look(&e, false);
    assert_eq!(action, UpsertAction::Perform { ops: store_entry(&e, "h", b"data", false) });
    let (upsert, action) = upsert.on_performed(&e);
    assert_eq!(action, UpsertAction::ReadText { path: b"/c/index.tsv".to_vec() });
    assert!(upsert.is_reading());
    let (upsert, action) = upsert.on_index(&e, Some("a\tm\tx\n"));
    let ops = upsert_entry(&e, "h", "m", "p", 3, Some("a\tm\tx\n"));
    assert_eq!(action, UpsertAction::Perform { ops });
    let (upsert, action) = upsert.on_performed(&e);
    assert_eq!(action, UpsertAction::Finish);
    assert!(!upsert.is_performing());
}

#[test]
fn new_entry_can_be_read_from_any_cache() {
    let mut files = Files::new();
    copy(&mut files, "listed", 2);
    files.insert(entry_path(&env(), "stray"), b"not listed".to_vec());
    put(&mut files, entry("new", "m", "p"), b"\x00\xff\nbytes", 2);
    assert_eq!(files[&entry_path(&env(), "new")], b"\x00\xff\nbytes".to_vec());
    assert_eq!(files[&entry_path(&env(), "stray")], b"not listed".to_vec());
    files.insert(index_path(&env()), b"\xff not text".to_vec());
    put(&mut files, entry("newer", "m", "q"), b"more", 2);
    assert_eq!(files[&entry_path(&env(), "newer")], b"more".to_vec());
    assert_eq!(previews(&files), vec!["q"]);
}

#[test]
fn second_upsert_changes_no_file() {
    for max_items in [0, 1, 2, 9] {
        let mut files = Files::new();
        for text in ["a", "b", "c"] {
            copy(&mut files, text, 9);
        }
        put(&mut files, entry("h", "m", "p"), b"one", max_items);
        let once = files.clone();
        put(&mut files, entry("h", "m", "p"), b"two", max_items);
        assert_eq!(files, once);
    }
}

#[test]
fn carriage_return_at_the_end_of_a_preview_is_lost() {
    let text = index_text(&vec![entry("h", "m", "x\r\r"), entry("i", "m", "y\rz")]);
    let read = read_index(Some(&text));
    let got: Vec<(&str, &str, &str)> = read.iter().map(fields).collect();
    assert_eq!(got, vec![("h", "m", "x\r"), ("i", "m", "y\rz")]);
}

#[test]
fn history_of_no_entries_keeps_no_files() {
    let mut files = Files::new();
    copy(&mut files, "gone", 0);
    assert_eq!(index_of(&files), Some(String::new()));
    assert_eq!(files.len(), 1);
}

#[test]
fn copied_text_can_be_selected() {
    let mut files = Files::new();
    let hash = copy(&mut files, "paste me", 3);
    copy(&mut files, "another", 3);
    let data = files.get(&entry_path(&env(), &hash)).cloned();
    let found = handle_select(&hash, None, data, index_of(&files).as_deref()).unwrap();
    assert_eq!(found.mime, "text/plain");
    assert_eq!(found.data, b"paste me".to_vec());
}

#[test]
fn saved_image_is_read_back() {
    let mut files = Files::new();
    copy(&mut files, "text", 3);
    perform(&mut files, save_last_image(&env(), "image/jpeg", &[1, 2, 3]));
    perform(&mut files, save_last_image(&env(), "image/png", &[4, 5]));
    copy(&mut files, "more text", 3);
    let meta = String::from_utf8(files[&last_image_meta_path(&env())].clone()).unwrap();
    let data = files[&last_image_data_path(&env())].clone();
    let image = read_last_image(Some(&meta), Some(data));
    assert_eq!(image, Some(("image/png".to_string(), vec![4, 5])));
    assert_eq!(previews(&files), vec!["more text", "text"]);
    assert_eq!(
        save_last_image(&env(), "image/png", &[9]),
        vec![
            FileOp::CreateDirAll { path: b"/c/entries".to_vec() },
            FileOp::Write { path: b"/c/last_image.bin".to_vec(), data: vec![9] },
            FileOp::Write { path: b"/c/last_image.meta".to_vec(), data: b"image/png".to_vec() },
        ]
    );
}

#[test]
fn interrupted_save_keeps_the_history() {
    let mut files = Files::new();
    copy(&mut files, "text", 3);
    for done in 0..3 {
        let mut now = files.clone();
        let mut ops = save_last_image(&env(), "image/png", &[1, 2]);
        let rest = ops.split_off(done);
        perform(&mut now, ops);
        assert_eq!(previews(&now), vec!["text"]);
        if let Some(FileOp::Write { path, .. }) = rest.first() {
            now.insert(path.clone(), b"torn".to_vec());
            assert_eq!(previews(&now), vec!["text"]);
        }
    }
}
