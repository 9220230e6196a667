use clipdmenu::capture::{
    capture_selection, capture_text, choose_target, get_targets, name_targets, Capture,
    CaptureAction, Choice, Target, SETTLE_MS, TEXT_MIME,
};
use clipdmenu::hash_bytes;
use clipdmenu::x11::Atoms;

fn atoms() -> Atoms {
    Atoms {
        clipboard: 100,
        primary: 1,
        targets: 101,
        incr: 102,
        utf8_string: 103,
        string: 31,
        text: 104,
        transfer_prop: 105,
    }
}

fn target(atom: u32, name: &str) -> Target {
    Target { atom, name: name.to_string() }
}

fn bytes_of(numbers: &[u32]) -> Vec<u8> {
    numbers.iter().flat_map(|n| n.to_ne_bytes()).collect()
}

#[test]
fn targets_are_numbers_of_four_bytes() {
    assert_eq!(get_targets(&None), Vec::<u32>::new());
    assert_eq!(get_targets(&Some((vec![], 4))), Vec::<u32>::new());
    let numbers = [1u32, 0x01020304, u32::MAX, 0];
    let mut data = bytes_of(&numbers);
    assert_eq!(get_targets(&Some((data.clone(), 4))), numbers.to_vec());
    data.push(9);
    assert_eq!(get_targets(&Some((data, 4))), numbers.to_vec());
}

#[test]
fn text_goes_before_images_and_utf8_before_other_text() {
    let all = vec![
        target(1, "image/png"),
        target(2, "TEXT"),
        target(3, "STRING"),
        target(4, "UTF8_STRING"),
        target(5, "UTF8_STRING"),
    ];
    assert_eq!(choose_target(&all), Choice::Text { atom: 4 });
    assert_eq!(
        choose_target(&vec![target(2, "TEXT"), target(3, "STRING")]),
        Choice::Text { atom: 3 }
    );
    assert_eq!(
        choose_target(&vec![target(2, "TEXT"), target(3, "TEXT")]),
        Choice::Text { atom: 2 }
    );
}

#[test]
fn png_goes_before_other_images() {
    let images = vec![
        target(1, "TARGETS"),
        target(2, "image/jpeg"),
        target(3, "image/png"),
        target(4, "image/png"),
    ];
    assert_eq!(
        choose_target(&images),
        Choice::Image { atom: 3, mime: "image/png".to_string() }
    );
    let others = vec![target(1, "x-image/"), target(2, "image/bmp"), target(3, "image/tiff")];
    assert_eq!(
        choose_target(&others),
        Choice::Image { atom: 2, mime: "image/bmp".to_string() }
    );
    assert_eq!(choose_target(&vec![target(1, "TARGETS")]), Choice::Nothing);
    assert_eq!(choose_target(&Vec::new()), Choice::Nothing);
}

#[test]
fn names_are_read_as_utf8() {
    let named = name_targets(&vec![7, 8, 9], &vec![b"STRING".to_vec(), vec![b'a', 0xff]]);
    assert_eq!(named, vec![target(7, "STRING"), target(8, "a\u{fffd}")]);
}

#[test]
fn text_is_kept_if_it_is_text() {
    let kept = capture_text(" h\u{e9}\n".as_bytes().to_vec()).unwrap();
    assert_eq!(kept.data, " h\u{e9}\n".as_bytes().to_vec());
    assert_eq!(kept.hash, hash_bytes(" h\u{e9}\n".as_bytes()));
    assert_eq!(kept.preview, "h\u{e9}");
    assert!(capture_text(vec![]).is_none());
    assert!(capture_text(b" \n\t\xe2\x80\x83".to_vec()).is_none());
    assert!(capture_text(vec![b'a', 0xff]).is_none());
    assert!(capture_text(vec![0xc3]).is_none());
}

#[test]
fn capture_of_text() {
    let (c, action) = capture_selection(&atoms());
    assert_eq!(action, CaptureAction::Fetch { target: 101 });
    assert!(c.is_fetching());
    let (c, action) = c.on_contents(Some((bytes_of(&[7, 8]), 4)));
    assert_eq!(action, CaptureAction::NameAtoms { atoms: vec![7, 8] });
    assert!(!c.is_fetching() && c.is_naming());
    let (c, action) = c.on_names(&vec![b"image/png".to_vec(), b"STRING".to_vec()]);
    assert_eq!(action, CaptureAction::Fetch { target: 8 });
    let (c, action) = c.on_contents(Some((b"hello".to_vec(), 31)));
    match action {
        CaptureAction::KeepText { text } => {
            assert_eq!(text.data, b"hello".to_vec());
            assert_eq!(text.preview, "hello");
        }
        _ => unreachable!(),
    }
    assert_eq!(c, Capture::Done);
}

#[test]
fn capture_of_an_image() {
    let (c, _) = capture_selection(&atoms());
    let (c, _) = c.on_contents(Some((bytes_of(&[7]), 4)));
    let (c, action) = c.on_names(&vec![b"image/webp".to_vec()]);
    assert_eq!(action, CaptureAction::Fetch { target: 7 });
    assert_eq!(c, Capture::AwaitImage { mime: "image/webp".to_string() });
    let (c, action) = c.on_contents(Some((vec![1, 2], 7)));
    assert_eq!(
        action,
        CaptureAction::KeepImage { mime: "image/webp".to_string(), data: vec![1, 2] }
    );
    assert_eq!(c, Capture::Done);
}

#[test]
fn captures_that_bring_nothing() {
    let finish = |r: (Capture, CaptureAction)| {
        assert_eq!(r, (Capture::Done, CaptureAction::Finish));
    };
    let (c, _) = capture_selection(&atoms());
    finish(c.on_contents(None));
    finish(Capture::AwaitTargets.on_contents(Some((vec![1, 2, 3], 4))));
    finish(Capture::AwaitText.on_contents(None));
    finish(Capture::AwaitText.on_contents(Some((b"  ".to_vec(), 31))));
    finish(Capture::AwaitText.on_contents(Some((vec![0xff], 31))));
    finish(Capture::AwaitImage { mime: "image/png".to_string() }.on_contents(None));
    finish(Capture::AwaitImage { mime: "image/png".to_string() }.on_contents(Some((vec![], 7))));
    finish(Capture::AwaitNames { targets: vec![7] }.on_names(&vec![b"TARGETS".to_vec()]));
    assert_eq!(SETTLE_MS, 50);
    assert_eq!(TEXT_MIME, "text/plain");
}
