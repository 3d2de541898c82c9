use std::cell::RefCell;
use std::collections::BTreeMap;

use libsdbootconf::config::Config;
use libsdbootconf::entry::{Entry, Token};
use libsdbootconf::{
    DirItem, IoErrorKind, LibSDBootConfError, SystemdBootConf, SystemdBootConfBuilder,
};

fn s(x: &str) -> String {
    x.to_string()
}

/// Files and directories held in memory, keyed by path.
struct MemFs {
    files: RefCell<BTreeMap<String, String>>,
    dirs: Vec<String>,
}

impl MemFs {
    fn new(files: &[(&str, &str)], dirs: &[&str]) -> MemFs {
        MemFs {
            files: RefCell::new(files.iter().map(|(p, t)| (s(p), s(t))).collect()),
            dirs: dirs.iter().map(|d| s(d)).collect(),
        }
    }

    fn read(&self, p: &str) -> Result<String, LibSDBootConfError> {
        self.files
            .borrow()
            .get(p)
            .cloned()
            .ok_or(LibSDBootConfError::IOError(IoErrorKind::NotFound, s(p)))
    }

    fn list(&self, dir: &str) -> Result<Vec<DirItem>, LibSDBootConfError> {
        let prefix = format!("{}/", dir);
        let is_child = |p: &str| p.starts_with(&prefix) && !p[prefix.len()..].contains('/');
        let mut items: Vec<DirItem> = self
            .files
            .borrow()
            .keys()
            .filter(|p| is_child(p))
            .map(|p| DirItem { path: p.clone(), is_file: true })
            .collect();
        items.extend(
            self.dirs
                .iter()
                .filter(|p| is_child(p))
                .map(|p| DirItem { path: p.clone(), is_file: false }),
        );
        if items.is_empty() && !self.dirs.iter().any(|d| d == dir) {
            return Err(LibSDBootConfError::IOError(IoErrorKind::NotFound, s(dir)));
        }
        Ok(items)
    }

    fn write(&self, p: &str, text: &str) -> Result<(), LibSDBootConfError> {
        self.files.borrow_mut().insert(s(p), s(text));
        Ok(())
    }
}

fn sample() -> MemFs {
    MemFs::new(
        &[
            ("/efi/loader/loader.conf", "# settings\ndefault 5.12.0-aosc-main.conf\ntimeout 5\n"),
            ("/efi/loader/entries/5.12.0-aosc-main.conf", "title AOSC OS\n"),
            (
                "/efi/loader/entries/5.11.0-aosc-main.conf",
                "title AOSC OS (old)\nlinux /vmlinuz-5.11\noptions root=/dev/sda1 rw\n",
            ),
        ],
        &["/efi/loader/entries", "/efi/loader/entries/subdir"],
    )
}

#[test]
fn default_entry_resolves() {
    let fs = sample();
    let read = |p: &str| fs.read(p);
    let config = Config::new(Some(s("5.12.0-aosc-main.conf")), Some(5u32));
    let entry = config.default_entry("/efi/loader/entries", &read).unwrap().unwrap();
    assert_eq!(entry.id, "5.12.0-aosc-main");
    assert_eq!(entry.tokens, vec![Token::Title(s("AOSC OS"))]);
}

#[test]
fn default_entry_unset_is_none() {
    let fs = sample();
    let read = |p: &str| fs.read(p);
    let config = Config::new(None, Some(5u32));
    assert_eq!(config.default_entry("/efi/loader/entries", &read), Ok(None));
}

#[test]
fn default_entry_missing_file_is_not_found() {
    let fs = sample();
    let read = |p: &str| fs.read(p);
    let config = Config::new(Some(s("6.0.0.conf")), None);
    assert_eq!(
        config.default_entry("/efi/loader/entries", &read),
        Err(LibSDBootConfError::IOError(
            IoErrorKind::NotFound,
            s("/efi/loader/entries/6.0.0.conf")
        ))
    );
}

#[test]
fn default_entry_bad_suffix() {
    let fs = sample();
    let read = |p: &str| fs.read(p);
    let config = Config::new(Some(s("5.12.0-aosc-main")), None);
    assert_eq!(
        config.default_entry("/efi/loader/entries", &read),
        Err(LibSDBootConfError::InvalidEntryFilename(s("/efi/loader/entries/5.12.0-aosc-main")))
    );
}

#[test]
fn entry_load_and_write() {
    let fs = sample();
    let read = |p: &str| fs.read(p);
    let write = |p: &str, t: &str| fs.write(p, t);
    let entry = Entry::load("/efi/loader/entries/5.11.0-aosc-main.conf", &read).unwrap();
    assert_eq!(entry.id, "5.11.0-aosc-main");
    assert_eq!(entry.tokens.len(), 3);
    entry.write("/tmp/out.conf", &write).unwrap();
    assert_eq!(
        fs.read("/tmp/out.conf").unwrap(),
        "title AOSC OS (old)\nlinux /vmlinuz-5.11\noptions root=/dev/sda1 rw\n"
    );
    assert_eq!(
        Entry::load("/efi/loader/entries/missing.conf", &read),
        Err(LibSDBootConfError::IOError(
            IoErrorKind::NotFound,
            s("/efi/loader/entries/missing.conf")
        ))
    );
}

#[test]
fn load_skips_subdirectories() {
    let fs = sample();
    let read = |p: &str| fs.read(p);
    let list = |p: &str| fs.list(p);
    let conf = SystemdBootConf::load("/efi/loader", &read, &list).unwrap();
    assert_eq!(conf.working_dir, "/efi/loader");
    assert_eq!(conf.config, Config::new(Some(s("5.12.0-aosc-main.conf")), Some(5)));
    let ids: Vec<&str> = conf.entries.iter().map(|e| e.id.as_str()).collect();
    assert_eq!(ids, vec!["5.11.0-aosc-main", "5.12.0-aosc-main"]);
}

#[test]
fn load_fails_on_bad_entry_and_keeps_state() {
    let fs = MemFs::new(
        &[
            ("/w/loader.conf", "timeout 1\n"),
            ("/w/entries/good.conf", "title A\n"),
            ("/w/entries/notes.txt", "hello\n"),
        ],
        &["/w/entries"],
    );
    let read = |p: &str| fs.read(p);
    let list = |p: &str| fs.list(p);
    let mut conf = SystemdBootConf::init(s("/w"));
    assert_eq!(
        conf.load_current(&read, &list),
        Err(LibSDBootConfError::InvalidEntryFilename(s("/w/entries/notes.txt")))
    );
    assert_eq!(conf.config, Config::new(None, None));
    assert!(conf.entries.is_empty());
}

#[test]
fn load_fails_without_loader_file() {
    let fs = MemFs::new(&[], &["/w/entries"]);
    let read = |p: &str| fs.read(p);
    let list = |p: &str| fs.list(p);
    assert_eq!(
        SystemdBootConf::load("/w", &read, &list).err(),
        Some(LibSDBootConfError::IOError(IoErrorKind::NotFound, s("/w/loader.conf")))
    );
}

#[test]
fn load_fails_without_entries_dir() {
    let fs = MemFs::new(&[("/w/loader.conf", "")], &[]);
    let read = |p: &str| fs.read(p);
    let list = |p: &str| fs.list(p);
    assert_eq!(
        SystemdBootConf::load("/w", &read, &list).err(),
        Some(LibSDBootConfError::IOError(IoErrorKind::NotFound, s("/w/entries")))
    );
}

#[test]
fn load_then_write_to_fresh_dir_is_identical() {
    let fs = MemFs::new(
        &[
            ("/old/loader.conf", "default b.conf\ntimeout 10\n"),
            ("/old/entries/a.conf", "title A\nversion 1\n"),
            ("/old/entries/b.conf", "title B\nlinux /vmlinuz\ninitrd /initrd\noptions quiet\n"),
        ],
        &["/old/entries"],
    );
    let read = |p: &str| fs.read(p);
    let list = |p: &str| fs.list(p);
    let write = |p: &str, t: &str| fs.write(p, t);
    let mut conf = SystemdBootConf::load("/old", &read, &list).unwrap();
    conf.working_dir = s("/new");
    conf.write_all(&write).unwrap();
    for name in ["loader.conf", "entries/a.conf", "entries/b.conf"] {
        assert_eq!(
            fs.read(&format!("/new/{}", name)).unwrap(),
            fs.read(&format!("/old/{}", name)).unwrap()
        );
    }
}

#[test]
fn write_entries_stops_at_first_failure() {
    let written = RefCell::new(Vec::new());
    let write = |p: &str, _t: &str| {
        if p.ends_with("b.conf") {
            return Err(LibSDBootConfError::IOError(IoErrorKind::PermissionDenied, s(p)));
        }
        written.borrow_mut().push(s(p));
        Ok(())
    };
    let conf = SystemdBootConfBuilder::new(s("/w"))
        .entry(Entry::new(s("a"), vec![]))
        .entry(Entry::new(s("b"), vec![]))
        .entry(Entry::new(s("c"), vec![]))
        .build();
    assert_eq!(
        conf.write_all(&write),
        Err(LibSDBootConfError::IOError(
            IoErrorKind::PermissionDenied,
            s("/w/entries/b.conf")
        ))
    );
    assert_eq!(*written.borrow(), vec![s("/w/loader.conf"), s("/w/entries/a.conf")]);
}

#[test]
fn write_config_and_entries_paths() {
    let fs = MemFs::new(&[], &[]);
    let write = |p: &str, t: &str| fs.write(p, t);
    let conf = SystemdBootConf::new(
        s("/efi/loader"),
        Config::new(Some(s("5.12.0-aosc-main")), Some(5u32)),
        vec![Entry::new(
            s("5.12.0-aosc-main"),
            vec![
                Token::Title(s("AOSC OS x86_64 (5.12.0-aosc-main)")),
                Token::Version(s("5.12.0-aosc-main")),
            ],
        )],
    );
    conf.write_config(&write).unwrap();
    conf.write_entries(&write).unwrap();
    assert_eq!(
        fs.read("/efi/loader/loader.conf").unwrap(),
        "default 5.12.0-aosc-main\ntimeout 5\n"
    );
    assert_eq!(
        fs.read("/efi/loader/entries/5.12.0-aosc-main.conf").unwrap(),
        "title AOSC OS x86_64 (5.12.0-aosc-main)\nversion 5.12.0-aosc-main\n"
    );
}

#[test]
fn builder_assembles_store() {
    let conf = SystemdBootConfBuilder::new(s("/efi/loader"))
        .config(Config::new(Some(s("a.conf")), Some(5)))
        .entries(vec![Entry::new(s("a"), vec![])])
        .entry(Entry::new(s("b"), vec![]))
        .build();
    assert_eq!(conf.working_dir, "/efi/loader");
    assert_eq!(conf.config.timeout, Some(5));
    assert_eq!(conf.entries.len(), 2);
    assert_eq!(conf.entries[1].id, "b");

    let empty = SystemdBootConf::init(s("/efi/loader"));
    assert_eq!(empty.working_dir, "/efi/loader");
    assert!(empty.entries.is_empty());
    assert_eq!(empty.config, Config::default());
}
