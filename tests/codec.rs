use libsdbootconf::config::{Config, ConfigBuilder};
use libsdbootconf::entry::{Entry, EntryBuilder, Keyword, Token};
use libsdbootconf::text::{file_name_of, join_path_str, parse_u32_text, split_lines};
use libsdbootconf::LibSDBootConfError;

fn s(x: &str) -> String {
    x.to_string()
}

#[test]
fn test_builder() {
    let entry = EntryBuilder::new(s("5.12.0-aosc-main"))
        .title(s("5.12.0-aosc-main"))
        .build();

    println!("{:?}", &entry);
    assert_eq!(entry.id, "5.12.0-aosc-main");
    assert_eq!(entry.tokens, vec![Token::Title(s("5.12.0-aosc-main"))]);
}

#[test]
fn token_round_trip_every_keyword() {
    let tokens = vec![
        Token::Title(s("AOSC OS x86_64 (5.12.0-aosc-main)")),
        Token::Version(s("5.12.0-aosc-main")),
        Token::MachineID(s("abc123")),
        Token::Efi(s("/EFI/a.efi")),
        Token::Options(s("root=/dev/sda1 rw")),
        Token::Linux(s("/EFI/linux/vmlinux-5.12.0-aosc-main")),
        Token::Initrd(s("/EFI/linux/initramfs-5.12.0-aosc-main.img")),
        Token::Title(s("")),
    ];
    for t in tokens {
        let text = t.to_string();
        assert!(text.ends_with('\n'));
        let line = text.trim_end_matches('\n');
        assert_eq!(Token::from_str(line), Ok(t));
    }
}

#[test]
fn token_text_exact() {
    assert_eq!(Token::Title(s("AOSC OS")).to_string(), "title AOSC OS\n");
    assert_eq!(Token::MachineID(s("x")).to_string(), "machine-id x\n");
    assert_eq!(Token::Linux(s("/vmlinuz")).to_string(), "linux /vmlinuz\n");
    assert_eq!(Keyword::Initrd.text(), "initrd");
}

#[test]
fn token_value_keeps_spaces() {
    assert_eq!(
        Token::from_str("options root=/dev/sda1  rw quiet"),
        Ok(Token::Options(s("root=/dev/sda1  rw quiet")))
    );
}

#[test]
fn token_errors() {
    assert_eq!(Token::from_str("title"), Err(LibSDBootConfError::EntryParseError));
    assert_eq!(
        Token::from_str("devicetree /dtb"),
        Err(LibSDBootConfError::InvalidToken(s("devicetree")))
    );
    assert_eq!(
        Token::from_str("Title x"),
        Err(LibSDBootConfError::InvalidToken(s("Title")))
    );
}

#[test]
fn entry_round_trip() {
    let entry = Entry::new(
        s("5.12.0-aosc-main"),
        vec![
            Token::Title(s("AOSC OS x86_64 (5.12.0-aosc-main)")),
            Token::Linux(s("/EFI/linux/vmlinux-5.12.0-aosc-main")),
            Token::Initrd(s("/EFI/linux/initramfs-5.12.0-aosc-main.img")),
            Token::Options(s("root=/dev/sda1 rw")),
            Token::Title(s("second title")),
        ],
    );
    let text = entry.to_string();
    assert_eq!(
        text,
        "title AOSC OS x86_64 (5.12.0-aosc-main)\n\
         linux /EFI/linux/vmlinux-5.12.0-aosc-main\n\
         initrd /EFI/linux/initramfs-5.12.0-aosc-main.img\n\
         options root=/dev/sda1 rw\n\
         title second title\n"
    );
    let parsed = Entry::from_str(&text).unwrap();
    assert_eq!(parsed.id, "");
    assert_eq!(parsed.tokens, entry.tokens);
}

#[test]
fn entry_empty_text() {
    let parsed = Entry::from_str("").unwrap();
    assert!(parsed.tokens.is_empty());
    assert_eq!(Entry::new(s("x"), vec![]).to_string(), "");
}

#[test]
fn entry_comments_and_blanks_ignored() {
    let plain = "title A\nversion 1\n";
    let noisy = "# a comment\n\ntitle A\n#title B\n\n\nversion 1\n# end";
    assert_eq!(Entry::from_str(noisy), Entry::from_str(plain));
    assert_eq!(
        Entry::from_str(noisy).unwrap().tokens,
        vec![Token::Title(s("A")), Token::Version(s("1"))]
    );
}

#[test]
fn entry_crlf_lines() {
    let parsed = Entry::from_str("title A\r\nversion 1\r\n").unwrap();
    assert_eq!(parsed.tokens, vec![Token::Title(s("A")), Token::Version(s("1"))]);
}

#[test]
fn entry_unknown_keyword_fails() {
    assert_eq!(
        Entry::from_str("title A\nsort-key x\nversion 1\n"),
        Err(LibSDBootConfError::InvalidToken(s("sort-key")))
    );
}

#[test]
fn entry_line_without_value_fails() {
    assert_eq!(
        Entry::from_str("title A\nlinux\n"),
        Err(LibSDBootConfError::EntryParseError)
    );
}

#[test]
fn entry_first_bad_line_decides() {
    assert_eq!(
        Entry::from_str("bogus 1\ntitle\n"),
        Err(LibSDBootConfError::InvalidToken(s("bogus")))
    );
}

#[test]
fn entry_builder_all_fields() {
    let entry = EntryBuilder::new(s("5.12.0-aosc-main"))
        .title(s("AOSC OS"))
        .version(s("5.12.0"))
        .machine_id(s("m"))
        .efi(s("/e.efi"))
        .options(s("quiet"))
        .linux(s("/vmlinuz"))
        .initrd(s("/initrd.img"))
        .build();
    assert_eq!(
        entry.to_string(),
        "title AOSC OS\nversion 5.12.0\nmachine-id m\nefi /e.efi\noptions quiet\nlinux /vmlinuz\ninitrd /initrd.img\n"
    );
}

#[test]
fn entry_builder_matches_new() {
    let entry = Entry::new(
        s("5.12.0-aosc-main"),
        vec![Token::Title(s("AOSC OS x86_64 (5.12.0-aosc-main)"))],
    );
    let built = EntryBuilder::new(s("5.12.0-aosc-main"))
        .title(s("AOSC OS x86_64 (5.12.0-aosc-main)"))
        .build();
    assert_eq!(entry.to_string(), built.to_string());
    assert_eq!(entry, built);
}

#[test]
fn entry_id_from_path() {
    assert_eq!(
        Entry::id_from_path("/efi/loader/entries/5.12.0-aosc-main.conf"),
        Ok(s("5.12.0-aosc-main"))
    );
    assert_eq!(Entry::id_from_path("a.conf"), Ok(s("a")));
    assert_eq!(
        Entry::id_from_path("/efi/loader/entries/readme.txt"),
        Err(LibSDBootConfError::InvalidEntryFilename(s("/efi/loader/entries/readme.txt")))
    );
    assert_eq!(
        Entry::id_from_path("/efi/loader/entries/"),
        Err(LibSDBootConfError::InvalidEntryFilename(s("/efi/loader/entries/")))
    );
}

#[test]
fn config_round_trip_all_combinations() {
    let configs = vec![
        Config::new(None, None),
        Config::new(Some(s("5.12.0-aosc-main.conf")), None),
        Config::new(None, Some(5)),
        Config::new(Some(s("5.12.0-aosc-main.conf")), Some(0)),
        Config::new(Some(s("")), Some(u32::MAX)),
    ];
    for c in configs {
        assert_eq!(Config::from_str(&c.to_string()), Ok(c));
    }
}

#[test]
fn config_text_exact() {
    assert_eq!(Config::new(None, None).to_string(), "");
    assert_eq!(
        Config::new(Some(s("5.12.0-aosc-main")), Some(5)).to_string(),
        "default 5.12.0-aosc-main\ntimeout 5\n"
    );
    assert_eq!(Config::new(None, Some(4294967295)).to_string(), "timeout 4294967295\n");
    assert_eq!(Config::new(None, Some(10)).to_string(), "timeout 10\n");
}

#[test]
fn config_builder_matches_new() {
    let config = Config::new(Some(s("5.12.0-aosc-main")), Some(5u32));
    let built = ConfigBuilder::new()
        .default(s("5.12.0-aosc-main"))
        .timeout(5u32)
        .build();
    assert_eq!(config.to_string(), built.to_string());
    assert_eq!(config, built);
}

#[test]
fn config_unknown_key_ignored() {
    assert_eq!(
        Config::from_str("console-mode max\ndefault a.conf\neditor no\n"),
        Ok(Config::new(Some(s("a.conf")), None))
    );
}

#[test]
fn config_comments_and_blanks_ignored() {
    assert_eq!(
        Config::from_str("# loader\n\ndefault a.conf\n#timeout 9\n\ntimeout 3\n"),
        Config::from_str("default a.conf\ntimeout 3\n")
    );
}

#[test]
fn config_later_line_wins() {
    assert_eq!(
        Config::from_str("timeout 1\ntimeout 2\n"),
        Ok(Config::new(None, Some(2)))
    );
}

#[test]
fn config_malformed_timeout_is_zero() {
    assert_eq!(Config::from_str("timeout abc"), Ok(Config::new(None, Some(0))));
    assert_eq!(Config::from_str("timeout -1\n"), Ok(Config::new(None, Some(0))));
    assert_eq!(Config::from_str("timeout 4294967296\n"), Ok(Config::new(None, Some(0))));
    assert_eq!(Config::from_str("timeout \n"), Ok(Config::new(None, Some(0))));
    assert_eq!(Config::from_str("timeout +7\n"), Ok(Config::new(None, Some(7))));
}

#[test]
fn config_line_without_value_fails() {
    assert_eq!(Config::from_str("default"), Err(LibSDBootConfError::ConfigParseError));
    assert_eq!(
        Config::from_str("timeout 3\neditor\n"),
        Err(LibSDBootConfError::ConfigParseError)
    );
}

#[test]
fn set_default_adds_suffix_once() {
    let mut a = Config::default();
    a.set_default(&Entry::new(s("foo"), vec![]));
    assert_eq!(a.to_string(), "default foo.conf\n");

    let mut b = Config::new(None, Some(3));
    b.set_default(&Entry::new(s("foo.conf"), vec![]));
    assert_eq!(b.default, Some(s("foo.conf")));
    assert_eq!(b.timeout, Some(3));

    let c = ConfigBuilder::new()
        .default_entry(&Entry::new(s("5.12.0-aosc-main"), Vec::new()))
        .build();
    assert_eq!(c.default, Some(s("5.12.0-aosc-main.conf")));
}

#[test]
fn parse_u32_edges() {
    assert_eq!(parse_u32_text("0"), Some(0));
    assert_eq!(parse_u32_text("007"), Some(7));
    assert_eq!(parse_u32_text("+5"), Some(5));
    assert_eq!(parse_u32_text("4294967295"), Some(u32::MAX));
    assert_eq!(parse_u32_text("4294967296"), None);
    assert_eq!(parse_u32_text("99999999999"), None);
    assert_eq!(parse_u32_text(""), None);
    assert_eq!(parse_u32_text("+"), None);
    assert_eq!(parse_u32_text("-1"), None);
    assert_eq!(parse_u32_text(" 1"), None);
    assert_eq!(parse_u32_text("1a"), None);
    for text in ["0", "+5", "4294967295", "4294967296", "", "+", "-0", "12x"] {
        assert_eq!(parse_u32_text(text), text.parse::<u32>().ok());
    }
}

#[test]
fn split_lines_like_std() {
    for text in ["", "a", "a\n", "a\nb", "a\r\nb\r\n", "\n\n", "a\n\nb\n", "x\r"] {
        let ours = split_lines(text);
        let std_lines: Vec<String> = text.lines().map(|l| l.to_string()).collect();
        assert_eq!(ours, std_lines, "text {:?}", text);
    }
}

#[test]
fn path_helpers() {
    assert_eq!(join_path_str("/efi/loader", "loader.conf"), "/efi/loader/loader.conf");
    assert_eq!(join_path_str("/efi/loader/", "entries"), "/efi/loader/entries");
    assert_eq!(join_path_str("", "entries"), "entries");
    assert_eq!(join_path_str("/efi/loader", "/abs.conf"), "/abs.conf");
    assert_eq!(file_name_of("/a/b/c.conf"), "c.conf");
    assert_eq!(file_name_of("c.conf"), "c.conf");
    assert_eq!(file_name_of("/a/b/"), "");
}
