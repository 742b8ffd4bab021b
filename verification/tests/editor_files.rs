use coreos::editor::Editor;
use coreos::fs::RamFS;

fn editor_for(name: &str) -> Editor {
    let mut e = Editor::new();
    for (i, c) in name.chars().enumerate() {
        e.filename[i] = c;
    }
    e
}

#[test]
fn save_replaces_the_file_contents() {
    let mut fs = RamFS::new();
    let name = ['n', 'o', 't', 'e', 's'];
    assert!(fs.create(&name));
    assert!(fs.append_all(&name, b"old contents"));
    let mut e = editor_for("notes");
    for c in "new".chars() {
        e.insert_char(c);
    }
    assert!(e.is_dirty);
    assert!(e.save_to_fs(&mut fs));
    assert!(!e.is_dirty);
    assert_eq!(fs.read_at(0, 0, 100), b"new".to_vec());
    assert_eq!(e.length, 3);
}

#[test]
fn save_without_a_file_changes_nothing() {
    let mut fs = RamFS::new();
    assert!(fs.create(&['a']));
    let mut e = editor_for("missing");
    e.insert_char('x');
    assert!(!e.save_to_fs(&mut fs));
    assert!(e.is_dirty);
    assert_eq!(fs.file_size(0), 0);
}

#[test]
fn save_keeps_at_most_the_limit() {
    let mut fs = RamFS::new();
    assert!(fs.create(&['b', 'i', 'g']));
    let mut e = editor_for("big");
    for i in 0..3000u32 {
        e.insert_char(char::from(b'a' + (i % 26) as u8));
    }
    assert!(e.save_to_fs(&mut fs));
    assert_eq!(fs.file_size(0), 2048);
    assert_eq!(fs.read_at(0, 2040, 8), e.buffer[2040..2048].to_vec());
}

#[test]
fn status_line_text() {
    let mut e = editor_for("notes");
    assert_eq!(e.name_len(), 5);
    assert_eq!(e.name_chars(), vec!['n', 'o', 't', 'e', 's']);
    let line: String = e.status_text().into_iter().collect();
    assert_eq!(line, " FILE: notes | POS: 0 | SAVED | F1: Save | ESC: Exit");
    for c in "abc".chars() {
        e.insert_char(c);
    }
    let line: String = e.status_text().into_iter().collect();
    assert_eq!(line, " FILE: notes | POS: 3 | MODIFIED | F1: Save | ESC: Exit");
    let full = editor_for("abcdefghijklmnop");
    assert_eq!(full.name_len(), 16);
}
