use internet_downloader_backend::download::file_name::FileName;
use internet_downloader_backend::download::items::usable_folder_name;
use internet_downloader_backend::utils::file_utils::{
    is_invalid_filename_char, is_reserved_dos_name, is_valid_file_name, is_valid_raw_name,
    normalize_filename, InvalidFilename, InvalidWindowsFilename, TargetOs,
};
use internet_downloader_backend::utils::numbers::{parse_number, push_decimal};
use internet_downloader_backend::utils::paths::ItemPath;
use internet_downloader_backend::utils::raw_paths::{take_apart, PathComponent};
use internet_downloader_backend::utils::shared_file_map::{
    NextWrite, SharedFileMap, WriteError, WriteOutcome,
};
use internet_downloader_backend::utils::text::{chars_of, find_char, string_of, text_eq};
use internet_downloader_backend::utils::urls::{
    filename_from_url, host_or_label, label_of_host, parse_host_or_url, to_url, Host,
};
use internet_downloader_backend::utils::valid_path::{
    after_look, after_write, temp_name, temp_name_for, InvalidPath, Look,
    SavePathError, SavePathStep, ValidPath,
};

#[test]
fn refused_characters_become_underscores() {
    assert_eq!(normalize_filename("a/b", TargetOs::Unix), "a_b");
    assert_eq!(normalize_filename("a<b>:c", TargetOs::Unix), "a<b>:c");
    assert_eq!(normalize_filename("a<b>:c?*.txt", TargetOs::Windows), "a_b__c__.txt");
    assert!(is_invalid_filename_char(TargetOs::Unix, '/'));
    assert!(is_invalid_filename_char(TargetOs::Windows, '\n'));
    assert!(!is_invalid_filename_char(TargetOs::Unix, 'x'));
}

#[test]
fn windows_names_lose_their_tail() {
    assert_eq!(normalize_filename("name. . ", TargetOs::Windows), "name");
    assert_eq!(normalize_filename("name. . ", TargetOs::Unix), "name. . ");
}

#[test]
fn device_names_are_marked_on_windows() {
    assert_eq!(normalize_filename("con.txt", TargetOs::Windows), "_con.txt");
    assert_eq!(normalize_filename("con.txt", TargetOs::Unix), "con.txt");
    assert!(is_reserved_dos_name("COM1"));
    assert!(is_reserved_dos_name("lpt9.log"));
    assert!(!is_reserved_dos_name("COM0"));
    assert!(!is_reserved_dos_name("console"));
}

#[test]
fn long_names_are_cut_between_characters() {
    let long = "ä".repeat(200);
    let cut = normalize_filename(&long, TargetOs::Unix);
    assert_eq!(cut.len(), 254);
    assert_eq!(cut, "ä".repeat(127));
    let fits = "x".repeat(255);
    assert_eq!(normalize_filename(&fits, TargetOs::Unix), fits);
}

#[test]
fn normalized_names_are_kept_by_normalizing() {
    for name in ["a<b", "con", "x. ", "plain"] {
        let once = normalize_filename(name, TargetOs::Windows);
        assert_eq!(normalize_filename(&once, TargetOs::Windows), once);
    }
}

#[test]
fn each_broken_rule_is_told() {
    let unix = TargetOs::Unix;
    let windows = TargetOs::Windows;
    assert!(is_valid_file_name("file.txt", windows).is_ok());
    assert!(matches!(is_valid_file_name("", unix), Err(InvalidFilename::Empty)));
    assert!(matches!(is_valid_file_name("a\0b", unix), Err(InvalidFilename::ContainsNullByte)));
    assert!(matches!(is_valid_file_name(".", unix), Err(InvalidFilename::RelativeMarkers)));
    assert!(matches!(is_valid_file_name("..", unix), Err(InvalidFilename::RelativeMarkers)));
    assert!(is_valid_file_name("...", unix).is_ok());
    assert!(matches!(is_valid_file_name("a/b", unix), Err(InvalidFilename::ContainsForwardSlash)));
    assert!(matches!(is_valid_file_name(&"x".repeat(256), unix), Err(InvalidFilename::TooLong)));
    assert!(is_valid_file_name("a\\b", unix).is_ok());
    assert!(matches!(
        is_valid_file_name("a\\b", windows),
        Err(InvalidFilename::Window(InvalidWindowsFilename::ContainsBackwardSlash))
    ));
    assert!(matches!(
        is_valid_file_name("end ", windows),
        Err(InvalidFilename::Window(InvalidWindowsFilename::EndsWithSpace))
    ));
    assert!(matches!(
        is_valid_file_name("end.", windows),
        Err(InvalidFilename::Window(InvalidWindowsFilename::EndsWithDot))
    ));
    match is_valid_file_name("nul.txt", windows) {
        Err(InvalidFilename::Window(InvalidWindowsFilename::ReservedName(name))) => {
            assert_eq!(name, "nul.txt")
        }
        _ => panic!("a device's name was taken"),
    }
    match is_valid_file_name("a?b*c?", windows) {
        Err(InvalidFilename::Window(InvalidWindowsFilename::InvalidCharacters(found))) => {
            assert_eq!(found, vec!['?', '*'])
        }
        _ => panic!("refused characters were taken"),
    }
}

#[test]
fn raw_names_follow_the_common_rules() {
    for target in [TargetOs::Unix, TargetOs::Windows] {
        let check = |name: &[u8]| is_valid_raw_name(name, "\u{fffd}", target);
        assert!(check(&[0xff, 0xfe]).is_ok());
        assert!(matches!(check(&[]), Err(InvalidFilename::Empty)));
        assert!(matches!(check(&[1, 0]), Err(InvalidFilename::ContainsNullByte)));
        assert!(matches!(check(b".."), Err(InvalidFilename::RelativeMarkers)));
        assert!(matches!(check(b"a/"), Err(InvalidFilename::ContainsForwardSlash)));
        assert!(matches!(check(&[7u8; 256]), Err(InvalidFilename::TooLong)));
    }
}

#[test]
fn raw_names_follow_the_rules_of_windows() {
    let check = |text: &str, target| is_valid_raw_name(b"x\xff", text, target);
    for text in ["x\u{fffd}?", "x\u{fffd}\\", "x\u{fffd} ", "x\u{fffd}.", "con.\u{fffd}"] {
        assert!(check(text, TargetOs::Unix).is_ok());
        assert!(check(text, TargetOs::Windows).is_err());
    }
    match check("con.\u{fffd}", TargetOs::Windows) {
        Err(InvalidFilename::Window(InvalidWindowsFilename::ReservedName(name))) => {
            assert_eq!(name, "con.\u{fffd}");
        }
        _ => panic!("a device was taken for a file"),
    }
    let raw = |text: &str| PathComponent::Raw { bytes: b"x\xff?".to_vec(), text: text.to_owned() };
    let parts = vec![PathComponent::Prefix(b"C:".to_vec()), raw("x\u{fffd}?")];
    assert!(ValidPath::new(b"C:x\xff?".to_vec(), &parts, TargetOs::Unix).is_ok());
    assert!(matches!(
        ValidPath::new(b"C:x\xff?".to_vec(), &parts, TargetOs::Windows),
        Err(InvalidPath::InvalidFilename(InvalidFilename::Window(_)))
    ));
}

#[test]
fn name_errors_say_what_is_wrong() {
    assert_eq!(InvalidFilename::Empty.describe(), Some("The filename can not be empty"));
    assert_eq!(
        InvalidFilename::Window(InvalidWindowsFilename::ContainsBackwardSlash).describe(),
        Some("The filename can not contain a backward slash '\\'")
    );
    assert_eq!(
        InvalidFilename::Window(InvalidWindowsFilename::ReservedName("nul".to_owned())).describe(),
        None
    );
}

#[test]
fn folders_get_valid_names() {
    assert_eq!(usable_folder_name("music", TargetOs::Unix), "music");
    assert_eq!(usable_folder_name("..", TargetOs::Unix), "folder");
    assert_eq!(usable_folder_name("", TargetOs::Windows), "folder");
    assert_eq!(usable_folder_name("a/b", TargetOs::Unix), "a_b");
}

#[test]
fn the_plugin_names_a_file_before_the_server_and_the_url() {
    let mut name = FileName::new("https://h.org/dir/z.zip", Some("p.bin".to_owned()), TargetOs::Unix);
    assert_eq!(name.as_str(), "p.bin");
    name.set_server_name(Some("s.bin".to_owned()), TargetOs::Unix);
    assert_eq!(name.as_str(), "p.bin");
    assert_eq!(name.server_name(), Some("s.bin"));
    assert_eq!(name.url_hint(), Some("z.zip"));

    let mut bare = FileName::new("https://h.org/dir/z.zip", None, TargetOs::Unix);
    assert_eq!(bare.as_str(), "z.zip");
    bare.set_server_name(Some("s/t".to_owned()), TargetOs::Unix);
    assert_eq!(bare.as_str(), "s_t");
    assert_eq!(bare.plugin_hint(), None);

    let empty = FileName::new("https://h.org/", Some("".to_owned()), TargetOs::Unix);
    assert_eq!(empty.plugin_hint(), None);
    let twin = bare.duplicate();
    assert_eq!(twin.as_str(), "s_t");
}

#[test]
fn names_that_mean_something_else_are_replaced() {
    for (name, target) in [
        (".", TargetOs::Unix),
        ("..", TargetOs::Unix),
        (".", TargetOs::Windows),
        ("..", TargetOs::Windows),
        ("...", TargetOs::Windows),
        (". .", TargetOs::Windows),
        ("   ", TargetOs::Windows),
    ] {
        assert_eq!(normalize_filename(name, target), "_");
        assert!(is_valid_file_name("_", target).is_ok());
    }
    assert_eq!(normalize_filename("...", TargetOs::Unix), "...");
    assert_eq!(normalize_filename("", TargetOs::Unix), "");
    assert_eq!(normalize_filename("", TargetOs::Windows), "");
}

#[test]
fn a_url_suggests_its_last_segment() {
    assert_eq!(filename_from_url("https://h.org/a/b.zip?x=1"), Some("b.zip".to_owned()));
    assert_eq!(filename_from_url("https://h.org/a/b.zip#top"), Some("b.zip".to_owned()));
}

#[test]
fn hosts_are_read_from_urls() {
    assert_eq!(host_or_label("https://Example.org:8080/x"), Host::Domain("example.org".to_owned()));
    assert_eq!(host_or_label("not a url"), Host::Domain("unknown-host (not a url)".to_owned()));
    assert_eq!(label_of_host("u", None), Host::Domain("unknown-host (u)".to_owned()));
    let address = Host::Ipv4("1.2.3.4".to_owned());
    assert_eq!(label_of_host("u", Some(address.clone())), address);
}

#[test]
fn hosts_are_named_by_themselves_or_by_a_url() {
    let example = Some(Host::Domain("example.org".to_owned()));
    assert_eq!(parse_host_or_url("https://Example.org/x"), example);
    assert_eq!(parse_host_or_url("Example.org"), example);
    assert_eq!(parse_host_or_url("[::1]"), Some(Host::Ipv6("[::1]".to_owned())));
    assert_eq!(parse_host_or_url("https://1.2.3.4/x"), Some(Host::Ipv4("1.2.3.4".to_owned())));
    assert_eq!(parse_host_or_url("no host"), None);
}

#[test]
fn addresses_differ_from_names_that_read_alike() {
    let name = Host::Domain("1.2.3.4".to_owned());
    let address = parse_host_or_url("1.2.3.4").unwrap();
    let foreign = host_or_label("ftpx://1.2.3.4/x");
    assert_eq!(address.text(), name.text());
    assert_ne!(address.key(), name.key());
    assert_eq!(foreign, name);
    assert_eq!(address.duplicate(), address);
}

#[test]
fn urls_may_leave_out_their_scheme() {
    assert_eq!(to_url("example.org/x"), Some("https://example.org/x".to_owned()));
    assert_eq!(to_url("http://example.org"), Some("http://example.org".to_owned()));
    assert_eq!(to_url("https://"), None);
}

#[test]
fn paths_lead_back_to_where_they_came_from() {
    let base = ItemPath::new().join("downloads");
    let below = base.join("file.bin");
    assert_eq!(below.parts, vec![b"downloads".to_vec(), b"file.bin".to_vec()]);
    assert_eq!(below.parent().unwrap().parts, base.parts);
    assert_eq!(below.duplicate().parts, below.parts);
    let root = ItemPath { parts: vec![b"/".to_vec()] };
    assert!(root.parent().is_none());
    assert!(ItemPath::new().parent().is_none());
}

#[test]
fn valid_paths_have_valid_names() {
    let parts = vec![
        PathComponent::RootDir,
        PathComponent::Normal("home".to_owned()),
        PathComponent::ParentDir,
        PathComponent::Raw { bytes: vec![0xff], text: "\u{fffd}".to_owned() },
    ];
    let path = ValidPath::new(b"/home/../x".to_vec(), &parts, TargetOs::Unix).unwrap();
    assert_eq!(path.as_bytes(), &b"/home/../x".to_vec());
    assert!(matches!(
        ValidPath::new(vec![], &parts, TargetOs::Unix),
        Err(InvalidPath::Empty)
    ));
    assert!(matches!(
        ValidPath::new(vec![47, 0], &parts, TargetOs::Unix),
        Err(InvalidPath::ContainsNullByte)
    ));
    let bad = vec![PathComponent::Prefix(b"C:".to_vec()), PathComponent::Normal("a?".to_owned())];
    assert!(ValidPath::new(b"C:a?".to_vec(), &bad, TargetOs::Unix).is_ok());
    assert!(matches!(
        ValidPath::new(b"C:a?".to_vec(), &bad, TargetOs::Windows),
        Err(InvalidPath::InvalidFilename(InvalidFilename::Window(_)))
    ));
    assert_eq!(InvalidPath::Empty.describe(), Some("The path can not be empty"));
    assert_eq!(InvalidPath::InvalidFilename(InvalidFilename::Empty).describe(), None);
}

#[test]
fn paths_are_taken_apart_and_put_together() {
    let names = |raw: &[u8]| ItemPath::from_raw(&raw.to_vec()).unwrap().parts;
    assert_eq!(names(b"a/b"), vec![b"a".to_vec(), b"b".to_vec()]);
    assert_eq!(names(b"/a//b/./c/"), vec![b"/".to_vec(), b"a".to_vec(), b"b".to_vec(), b"c".to_vec()]);
    assert_eq!(names(b"../x"), vec![b"..".to_vec(), b"x".to_vec()]);
    assert!(names(b"").is_empty());
    let parts = take_apart(&b"/x/..".to_vec()).unwrap();
    assert!(matches!(
        &parts[..],
        [PathComponent::RootDir, PathComponent::Normal(name), PathComponent::ParentDir] if name == "x"
    ));

    let path = ItemPath::from_raw(&b"/save/a".to_vec()).unwrap().join("b.bin");
    let (raw, text) = path.to_raw();
    assert_eq!(raw, text.as_bytes());
    assert_eq!(ItemPath::from_raw(&raw).unwrap().parts, path.parts);
    if std::path::MAIN_SEPARATOR == '/' {
        assert_eq!(text, "/save/a/b.bin");
        // Names need not be text.
        let odd = ItemPath::from_raw(&b"a/\xff".to_vec()).unwrap();
        assert_eq!(odd.parts, vec![b"a".to_vec(), b"\xff".to_vec()]);
        assert_eq!(odd.to_raw(), (b"a/\xff".to_vec(), "a/\u{fffd}".to_owned()));
        assert!(matches!(
            &take_apart(&b"\xff".to_vec()).unwrap()[..],
            [PathComponent::Raw { text, .. }] if text == "\u{fffd}"
        ));
    }
}

#[test]
fn bytes_are_valid_paths_or_not() {
    let check = |raw: &[u8], target| ValidPath::from_bytes(raw.to_vec(), target).unwrap();
    let both = [TargetOs::Unix, TargetOs::Windows];
    for target in both {
        assert!(matches!(check(b"", target), Err(InvalidPath::Empty)));
        assert!(matches!(check(b"a/\0/b", target), Err(InvalidPath::ContainsNullByte)));
        let long = [b"a/".to_vec(), vec![b'x'; 256]].concat();
        assert!(matches!(
            check(&long, target),
            Err(InvalidPath::InvalidFilename(InvalidFilename::TooLong))
        ));
        assert_eq!(check(b"/home/../x/.", target).ok().unwrap().as_bytes(), &b"/home/../x/.".to_vec());
    }
    assert!(check(b"a/b:c", TargetOs::Unix).is_ok());
    match check(b"a/b:c?:/con", TargetOs::Windows) {
        Err(InvalidPath::InvalidFilename(InvalidFilename::Window(
            InvalidWindowsFilename::InvalidCharacters(mut found),
        ))) => {
            found.sort();
            assert_eq!(found, vec![':', '?']);
        }
        _ => panic!("refused characters were taken"),
    }
    match check(b"a/Con.txt/b?", TargetOs::Windows) {
        Err(InvalidPath::InvalidFilename(InvalidFilename::Window(
            InvalidWindowsFilename::ReservedName(name),
        ))) => assert_eq!(name, "Con.txt"),
        _ => panic!("a device was taken for a folder"),
    }
}

#[test]
fn the_nearest_folder_decides_where_something_can_be_saved() {
    assert_eq!(after_look(0, 2, Look::Directory), SavePathStep::Fine);
    assert_eq!(after_look(0, 2, Look::Other), SavePathStep::NotADirectory);
    assert_eq!(after_look(0, 2, Look::Failed), SavePathStep::PermissionDenied);
    assert_eq!(after_look(0, 2, Look::NotFound), SavePathStep::LookAt(1));
    assert_eq!(after_look(1, 2, Look::Directory), SavePathStep::TryToWrite(1));
    assert_eq!(after_look(2, 2, Look::NotFound), SavePathStep::RootDoesNotExist);
    assert_eq!(after_write(true), SavePathStep::Fine);
    assert_eq!(after_write(false), SavePathStep::PermissionDenied);
    assert_eq!(
        SavePathError::RootDoesNotExist.describe(),
        Some("This drive does not exist")
    );
    assert_eq!(SavePathError::Invalid(InvalidPath::Empty).describe(), None);
}

#[test]
fn temporary_names_are_numbers() {
    assert_eq!(temp_name_for(42), "42.tmp");
    let name = temp_name();
    let digits = name.strip_suffix(".tmp").unwrap();
    assert!(digits.parse::<u64>().is_ok());
    let others: Vec<String> = (0..4).map(|_| temp_name()).collect();
    assert!(others.iter().any(|other| other != &name));
}

#[test]
fn numbers_read_back_as_they_were_written() {
    for n in [0u64, 7, 10, 1234567890, u64::MAX] {
        let mut text = String::from("n=");
        push_decimal(&mut text, n);
        assert_eq!(text, format!("n={}", n));
        assert_eq!(parse_number(&n.to_string().chars().collect()), Some(n));
    }
    assert_eq!(parse_number(&vec!['+', '5']), Some(5));
    assert_eq!(parse_number(&vec![]), None);
    assert_eq!(parse_number(&vec!['1', 'x']), None);
    assert_eq!(parse_number(&"18446744073709551616".chars().collect()), None);
}

#[test]
fn texts_are_taken_apart() {
    let chars = chars_of("aäb");
    assert_eq!(chars, vec!['a', 'ä', 'b']);
    assert_eq!(string_of(&chars, 1, 3), "äb");
    assert_eq!(find_char(&chars, 'b'), Some(2));
    assert_eq!(find_char(&chars, 'x'), None);
    assert!(text_eq("x", "x"));
    assert!(!text_eq("x", "X"));
}

#[test]
fn writes_keep_to_the_file() {
    let file = SharedFileMap::new(10);
    let mut write = file.write_chunk(4, 6).unwrap();
    assert_eq!(write.next(), Some(NextWrite { from: 0, at: 4 }));
    assert_eq!(write.on_outcome(WriteOutcome::Interrupted), Ok(()));
    assert_eq!(write.on_outcome(WriteOutcome::Written(2)), Ok(()));
    assert_eq!(write.next(), Some(NextWrite { from: 2, at: 6 }));
    assert_eq!(write.on_outcome(WriteOutcome::Written(0)), Err(WriteError::WriteZero));
    assert_eq!(write.on_outcome(WriteOutcome::Written(4)), Ok(()));
    assert_eq!(write.next(), None);
    let error = file.write_chunk(5, 6).unwrap_err();
    assert_eq!(error, WriteError::OutOfBounds { size: 10, end: 11 });
    assert_eq!(error.describe(), "Out of bounds write! File size: 10, End: 11");
    assert_eq!(file.write_chunk(u64::MAX, 1).unwrap_err(), WriteError::Overflow);
    assert_eq!(WriteError::Overflow.describe(), "Offset and data length overflowed u64");
    assert_eq!(
        WriteError::WriteZero.describe(),
        "Failed to write: 0 bytes written (Disk full?)"
    );
}
