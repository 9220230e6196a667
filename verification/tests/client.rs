use clipdmenu::args::{help_text, parse_args, Config, ParsedArgs};
use clipdmenu::ipc::{
    check_reply, handle_select, ipc_line, ipc_request, own_selection, parse_command, reply_error,
    select_message, wants_last_image, Command, SelectError, Selection,
};
use clipdmenu::menu::{
    launch_command, launcher, menu_lines, menu_text, picked_id, picked_id_in_text,
};
use clipdmenu::{hash_bytes, Entry, DEFAULT_MAX_ITEMS, LAST_IMAGE_ID};

fn args(list: &[&str]) -> Vec<String> {
    list.iter().map(|s| s.to_string()).collect()
}

fn run(max_items: usize, watch_primary: bool) -> ParsedArgs {
    ParsedArgs::Run(Config { max_items, watch_primary })
}

fn entry(hash: &str, preview: &str) -> Entry {
    Entry {
        hash: hash.to_string(),
        mime: "text/plain".to_string(),
        preview: preview.to_string(),
    }
}

#[test]
fn flags_of_the_daemon() {
    assert_eq!(DEFAULT_MAX_ITEMS, 200);
    assert_eq!(parse_args(&args(&[])), run(200, false));
    assert_eq!(parse_args(&args(&["--max-items=5"])), run(5, false));
    assert_eq!(parse_args(&args(&["--max-items=+7", "--watch-primary"])), run(7, true));
    assert_eq!(parse_args(&args(&["--max-items=5", "--max-items=x"])), run(5, false));
    assert_eq!(parse_args(&args(&["--max-items=5", "--max-items=6"])), run(6, false));
    let ignored = args(&["--max-items=", "--max-items", "watch-primary"]);
    assert_eq!(parse_args(&ignored), run(200, false));
    assert_eq!(parse_args(&args(&["--max-items=0"])), run(0, false));
    assert_eq!(parse_args(&args(&["--max-items=99999999999999999999999"])), run(200, false));
    assert_eq!(parse_args(&args(&["-h"])), ParsedArgs::Help);
    let helped = args(&["--watch-primary", "--help", "--max-items=1"]);
    assert_eq!(parse_args(&helped), ParsedArgs::Help);
}

#[test]
fn help_names_the_flags() {
    assert_eq!(
        help_text(),
        "clipdmenud [--max-items=N] [--watch-primary]\n\n\
         --max-items=N     keep at most N text entries (default 200)\n\
         --watch-primary   also capture the PRIMARY (mouse-select) selection"
    );
}

#[test]
fn commands_are_trimmed_lines() {
    assert_eq!(ipc_request("  PING \r\n"), Some("PING".to_string()));
    assert_eq!(ipc_request(" \n"), None);
    assert_eq!(ipc_request(""), None);
}

#[test]
fn commands_that_the_daemon_knows() {
    assert_eq!(parse_command("PING"), Command::Ping);
    assert_eq!(parse_command("SELECT abc"), Command::Select { id: "abc".to_string() });
    assert_eq!(parse_command("SELECT   a b "), Command::Select { id: "a b".to_string() });
    assert_eq!(parse_command("SELECT "), Command::Select { id: "".to_string() });
    assert_eq!(parse_command("SELECT"), Command::Unknown);
    assert_eq!(parse_command("select abc"), Command::Unknown);
    assert_eq!(parse_command("PING "), Command::Unknown);
    assert_eq!(parse_command(""), Command::Unknown);
}

#[test]
fn selection_request_goes_through() {
    for id in [hash_bytes(b"x"), LAST_IMAGE_ID.to_string()] {
        let line = select_message(&id);
        assert_eq!(line, format!("SELECT {}\n", id));
        let request = ipc_request(&line).unwrap();
        assert_eq!(parse_command(&request), Command::Select { id });
    }
}

#[test]
fn replies_go_through() {
    assert_eq!(check_reply("OK\n"), Ok(()));
    assert_eq!(check_reply(&ipc_line("PONG")), Ok(()));
    assert_eq!(check_reply(""), Ok(()));
    let reply = ipc_line(&reply_error(&SelectError::NoEntry.message()));
    assert_eq!(reply, "ERR history entry not found\n");
    assert_eq!(
        check_reply(&reply),
        Err("clipdmenud reported an error: history entry not found".to_string())
    );
    assert_eq!(check_reply(" ERR \n"), Err("clipdmenud reported an error:".to_string()));
    assert_eq!(check_reply("ERROR"), Err("clipdmenud reported an error:OR".to_string()));
}

#[test]
fn selecting_the_last_image() {
    assert!(wants_last_image("last_image"));
    assert!(!wants_last_image("last_image "));
    let image = Some(("image/png".to_string(), vec![1]));
    assert_eq!(
        handle_select("last_image", image, None, None),
        Ok(Selection { mime: "image/png".to_string(), data: vec![1] })
    );
    let none = handle_select("last_image", None, Some(vec![2]), None);
    assert_eq!(none, Err(SelectError::NoImage));
    assert_eq!(SelectError::NoImage.message(), "no image cached yet");
}

#[test]
fn selecting_an_entry() {
    let index = "abc\ttext/html\tpreview\n";
    assert_eq!(
        handle_select("abc", None, Some(vec![2]), Some(index)),
        Ok(Selection { mime: "text/html".to_string(), data: vec![2] })
    );
    assert_eq!(
        handle_select("def", None, Some(vec![3]), Some(index)),
        Ok(Selection { mime: "text/plain".to_string(), data: vec![3] })
    );
    assert_eq!(handle_select("abc", None, None, Some(index)), Err(SelectError::NoEntry));
}

#[test]
fn owned_text_is_offered_as_text() {
    let text = own_selection(Selection { mime: "text/html".to_string(), data: vec![1] }, 9);
    assert_eq!((text.mime_atom, text.is_text), (9, true));
    assert_eq!(text.data, vec![1]);
    let image = own_selection(Selection { mime: "image/png".to_string(), data: vec![] }, 9);
    assert!(!image.is_text);
    let odd = own_selection(Selection { mime: "text".to_string(), data: vec![] }, 9);
    assert!(!odd.is_text);
}

#[test]
fn menu_shows_image_and_history() {
    let entries = vec![entry("h1", "one"), entry("h2", "two")];
    assert_eq!(
        menu_text(Some("[image]"), &entries),
        Some("last_image\t[image]\nh1\tone\nh2\ttwo".to_string())
    );
    assert_eq!(menu_text(None, &entries), Some("h1\tone\nh2\ttwo".to_string()));
    assert_eq!(menu_text(None, &Vec::new()), None);
    assert_eq!(menu_lines(Some("p"), &Vec::new()), vec!["last_image\tp"]);
}

#[test]
fn picked_line_gives_its_id() {
    assert_eq!(picked_id(b"h1\tone\n"), Some("h1".to_string()));
    assert_eq!(picked_id(b"h1\tone"), Some("h1".to_string()));
    assert_eq!(picked_id(b"typed\n\n"), Some("typed".to_string()));
    assert_eq!(picked_id(b""), None);
    assert_eq!(picked_id(b"\n\n"), None);
    assert_eq!(picked_id(b"\tx\n"), None);
    assert_eq!(picked_id(b"a\xff\tx\n"), Some("a\u{fffd}".to_string()));
    assert_eq!(picked_id("\u{e9}\tx".as_bytes()), Some("\u{e9}".to_string()));
    for line in menu_lines(Some("p"), &vec![entry("h1", "one\ttwo\n"), entry("h2", "")]) {
        let id = picked_id_in_text(&format!("{}\n", line));
        assert_eq!(id.as_deref(), line.split('\t').next());
    }
}

#[test]
fn launcher_is_a_command_with_words() {
    assert_eq!(launcher(None), "dmenu");
    assert_eq!(launcher(Some("rofi -dmenu")), "rofi -dmenu");
    let plain = launch_command("dmenu", &args(&["-i", "-l", "20"]));
    assert_eq!(plain, vec!["dmenu", "-i", "-l", "20"]);
    let with_words = launch_command("rofi -dmenu", &args(&["-p", "a b"]));
    assert_eq!(with_words, vec!["rofi", "-dmenu", "-p", "a b"]);
    assert_eq!(launch_command(" fzf  --tac ", &args(&[])), vec!["fzf", "--tac"]);
    assert_eq!(launch_command("", &args(&["-i"])), vec!["", "-i"]);
}
