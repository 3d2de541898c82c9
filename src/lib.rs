//! Model, text codec and directory handling for the settings of a boot
//! loader menu: one loader settings file (`loader.conf`) and a directory of
//! entry files (`entries/<id>.conf`) under a working directory.
//!
//! The library does no file operation itself: loading and writing take the
//! closures that read a file, list a directory and write a file.
pub mod config;
pub mod entry;
pub mod error;
pub mod laws;
pub mod text;

use vstd::prelude::*;

pub use config::{Config, ConfigBuilder};
pub use entry::{Entry, EntryBuilder, Keyword, Token};
pub use error::{IoErrorKind, LibSDBootConfError};

use config::{parse_config, render_config, ConfigModel};
use entry::{entry_id_of_path, load_outcome, parse_entry, render_tokens, EntryModel};
use error::{read_gave, result_view, write_gave};
use text::{join_path, join_path_str};

verus! {

/// One item of a directory listing: its path, and whether it is a regular
/// file.
#[derive(Clone, Debug, PartialEq, Eq)]
pub struct DirItem {
    pub path: String,
    pub is_file: bool,
}

/// The path of the loader settings file under `wd`.
pub open spec fn loader_path(wd: Seq<char>) -> Seq<char> {
    join_path(wd, "loader.conf"@)
}

/// The path of the entries directory under `wd`.
pub open spec fn entries_dir(wd: Seq<char>) -> Seq<char> {
    join_path(wd, "entries"@)
}

/// The path of the file of the entry `id` under `wd`.
pub open spec fn entry_path(wd: Seq<char>, id: Seq<char>) -> Seq<char> {
    join_path(entries_dir(wd), id + ".conf"@)
}

/// `list`, called on a path with the characters `path`, returned `res`.
pub open spec fn list_gave<L: Fn(&str) -> Result<Vec<DirItem>, LibSDBootConfError>>(
    list: L,
    path: Seq<char>,
    res: Result<Vec<DirItem>, LibSDBootConfError>,
) -> bool {
    exists|p: &str| p@ == path && #[trigger] list.ensures((p,), res)
}

/// `e` is the entry that the file at `path` holds, as read through `read`.
pub open spec fn entry_read<R: Fn(&str) -> Result<String, LibSDBootConfError>>(
    read: R,
    path: Seq<char>,
    e: EntryModel,
) -> bool {
    &&& entry_id_of_path(path) == Some(e.id)
    &&& exists|text: String|
        #[trigger] read_gave(read, path, Ok(text)) && parse_entry(text@) == Ok::<
            Seq<entry::TokenModel>,
            error::ErrorModel,
        >(e.tokens)
}

/// `es` are the entries of the regular files among `items`, in order, as
/// read through `read`; other items are skipped.
pub open spec fn entries_loaded<R: Fn(&str) -> Result<String, LibSDBootConfError>>(
    read: R,
    items: Seq<DirItem>,
    es: Seq<EntryModel>,
) -> bool
    decreases items.len(),
{
    if items.len() == 0 {
        es.len() == 0
    } else if !items.last().is_file {
        entries_loaded(read, items.drop_last(), es)
    } else {
        &&& es.len() > 0
        &&& entry_read(read, items.last().path@, es.last())
        &&& entries_loaded(read, items.drop_last(), es.drop_last())
    }
}

/// The settings `c` and the entries `es` are what the working directory `wd`
/// holds, as read through `read` and listed through `list`.
pub open spec fn loaded_from<
    R: Fn(&str) -> Result<String, LibSDBootConfError>,
    L: Fn(&str) -> Result<Vec<DirItem>, LibSDBootConfError>,
>(read: R, list: L, wd: Seq<char>, c: ConfigModel, es: Seq<EntryModel>) -> bool {
    &&& exists|text: String|
        #[trigger] read_gave(read, loader_path(wd), Ok(text)) && parse_config(text@) == Ok::<
            ConfigModel,
            error::ErrorModel,
        >(c)
    &&& exists|items: Vec<DirItem>|
        #[trigger] list_gave(list, entries_dir(wd), Ok(items)) && entries_loaded(read, items@, es)
}

/// Loading the entry file at `path` through `read` failed with `err`: its
/// name is not that of an entry file, or reading it or parsing its text
/// failed so.
pub open spec fn entry_load_failed<R: Fn(&str) -> Result<String, LibSDBootConfError>>(
    read: R,
    path: Seq<char>,
    err: error::ErrorModel,
) -> bool {
    match entry_id_of_path(path) {
        None => err == error::ErrorModel::InvalidEntryFilename(path),
        Some(id) => exists|res: Result<String, LibSDBootConfError>|
            #[trigger] read_gave(read, path, res) && load_outcome(id, res) == Err::<
                EntryModel,
                error::ErrorModel,
            >(err),
    }
}

/// Loading the working directory `wd` failed with `err`, at one of its
/// steps: reading the loader settings, parsing them, listing the entries
/// directory, or loading one of its regular files.
pub open spec fn load_failed<
    R: Fn(&str) -> Result<String, LibSDBootConfError>,
    L: Fn(&str) -> Result<Vec<DirItem>, LibSDBootConfError>,
>(read: R, list: L, wd: Seq<char>, err: error::ErrorModel) -> bool {
    ||| exists|e: LibSDBootConfError|
        #[trigger] read_gave(read, loader_path(wd), Err(e)) && e@ == err
    ||| exists|text: String|
        #[trigger] read_gave(read, loader_path(wd), Ok(text)) && parse_config(text@) == Err::<
            ConfigModel,
            error::ErrorModel,
        >(err)
    ||| exists|e: LibSDBootConfError|
        #[trigger] list_gave(list, entries_dir(wd), Err(e)) && e@ == err
    ||| exists|items: Vec<DirItem>, k: int|
        #![trigger list_gave(list, entries_dir(wd), Ok(items)), items@[k]]
        list_gave(list, entries_dir(wd), Ok(items)) && 0 <= k < items@.len() && items@[k].is_file
            && entry_load_failed(read, items@[k].path@, err)
}

/// `write` gave `res` on the file of the entry `e` under `wd`.
pub open spec fn entry_written<W: Fn(&str, &str) -> Result<(), LibSDBootConfError>>(
    write: W,
    wd: Seq<char>,
    e: EntryModel,
    res: Result<(), LibSDBootConfError>,
) -> bool {
    write_gave(write, entry_path(wd, e.id), render_tokens(e.tokens), res)
}

/// Writing the entries `es` in order ended with `r`: all written when it is
/// `Ok`; else those before one entry were written, and that entry's write
/// gave `r`.
pub open spec fn entries_written<W: Fn(&str, &str) -> Result<(), LibSDBootConfError>>(
    write: W,
    wd: Seq<char>,
    es: Seq<EntryModel>,
    r: Result<(), LibSDBootConfError>,
) -> bool {
    match r {
        Ok(_) => forall|i: int|
            #![trigger es[i]]
            0 <= i < es.len() ==> entry_written(write, wd, es[i], Ok(())),
        Err(_) => exists|k: int|
            #![trigger es[k]]
            0 <= k < es.len() && (forall|i: int|
                #![trigger es[i]]
                0 <= i < k ==> entry_written(write, wd, es[i], Ok(()))) && entry_written(
                write,
                wd,
                es[k],
                r,
            ),
    }
}

/// The views of a sequence of entries.
pub open spec fn entry_views(v: Seq<Entry>) -> Seq<EntryModel> {
    v.map_values(|e: Entry| e@)
}

/// A working directory with its loader settings and its entries, as values.
pub struct StoreModel {
    pub working_dir: Seq<char>,
    pub config: ConfigModel,
    pub entries: Seq<EntryModel>,
}

/// A working directory with its loader settings and its entries.
#[derive(Debug)]
pub struct SystemdBootConf {
    pub working_dir: String,
    pub config: Config,
    pub entries: Vec<Entry>,
}

impl View for SystemdBootConf {
    type V = StoreModel;

    open spec fn view(&self) -> StoreModel {
        StoreModel {
            working_dir: self.working_dir@,
            config: self.config@,
            entries: entry_views(self.entries@),
        }
    }
}

impl SystemdBootConf {
    /// A configuration of the given parts.
    pub fn new(working_dir: String, config: Config, entries: Vec<Entry>) -> (r: SystemdBootConf)
        ensures
            r.working_dir == working_dir,
            r.config == config,
            r.entries == entries,
    {
        SystemdBootConf { working_dir, config, entries }
    }

    /// An empty configuration for `working_dir`: no settings set, no entries.
    pub fn init(working_dir: String) -> (r: SystemdBootConf)
        ensures
            r.working_dir == working_dir,
            r.config.default is None,
            r.config.timeout is None,
            r.entries@.len() == 0,
    {
        SystemdBootConf {
            working_dir,
            config: Config { default: None, timeout: None },
            entries: Vec::new(),
        }
    }

    /// Reads the configuration held in `working_dir`.
    pub fn load<
        R: Fn(&str) -> Result<String, LibSDBootConfError>,
        L: Fn(&str) -> Result<Vec<DirItem>, LibSDBootConfError>,
    >(working_dir: &str, read: &R, list: &L) -> (r: Result<SystemdBootConf, LibSDBootConfError>)
        requires
            forall|p: &str| read.requires((p,)),
            forall|p: &str| list.requires((p,)),
        ensures
            r is Ok ==> r->Ok_0.working_dir@ == working_dir@ && loaded_from(
                *read,
                *list,
                working_dir@,
                r->Ok_0.config@,
                entry_views(r->Ok_0.entries@),
            ),
            r is Err ==> load_failed(*read, *list, working_dir@, r->Err_0@),
    {
        let mut conf = SystemdBootConf::init(working_dir.to_owned());
        match conf.load_current(read, list) {
            Ok(()) => Ok(conf),
            Err(e) => Err(e),
        }
    }

    /// Reads again the configuration held in the working directory: the
    /// loader settings, then every regular file of the entries directory as
    /// an entry, in listing order. On an error nothing changes.
    pub fn load_current<
        R: Fn(&str) -> Result<String, LibSDBootConfError>,
        L: Fn(&str) -> Result<Vec<DirItem>, LibSDBootConfError>,
    >(&mut self, read: &R, list: &L) -> (r: Result<(), LibSDBootConfError>)
        requires
            forall|p: &str| read.requires((p,)),
            forall|p: &str| list.requires((p,)),
        ensures
            final(self).working_dir == old(self).working_dir,
            r is Err ==> final(self).config == old(self).config && final(self).entries == old(
                self,
            ).entries && load_failed(*read, *list, final(self).working_dir@, r->Err_0@),
            r is Ok ==> loaded_from(
                *read,
                *list,
                final(self).working_dir@,
                final(self).config@,
                entry_views(final(self).entries@),
            ),
    {
        let ghost wd = self.working_dir@;
        let loader = join_path_str(self.working_dir.as_str(), "loader.conf");
        let read_res = read(loader.as_str());
        proof {
            assert(read_gave(*read, loader_path(wd), read_res));
        }
        let text = match read_res {
            Err(e) => {
                return Err(e);
            },
            Ok(text) => text,
        };
        proof {
            assert(read_gave(*read, loader_path(wd), Ok(text)));
        }
        let config = match Config::from_str(text.as_str()) {
            Err(e) => {
                return Err(e);
            },
            Ok(c) => c,
        };
        let dir = join_path_str(self.working_dir.as_str(), "entries");
        let list_res = list(dir.as_str());
        proof {
            assert(list_gave(*list, entries_dir(wd), list_res));
        }
        let items = match list_res {
            Err(e) => {
                return Err(e);
            },
            Ok(items) => items,
        };
        proof {
            assert(list_gave(*list, entries_dir(self.working_dir@), Ok(items)));
        }
        let mut entries: Vec<Entry> = Vec::new();
        let mut i: usize = 0;
        proof {
            assert(items@.take(0) =~= seq![]);
            assert(entry_views(entries@) =~= seq![]);
        }
        while i < items.len()
            invariant
                i <= items.len(),
                forall|p: &str| read.requires((p,)),
                entries_loaded(*read, items@.take(i as int), entry_views(entries@)),
                wd == self.working_dir@,
                list_gave(*list, entries_dir(wd), Ok(items)),
            decreases items.len() - i,
        {
            let item = &items[i];
            let ghost pre = items@.take(i as int);
            proof {
                assert(items@.take(i + 1).drop_last() =~= pre);
                assert(items@.take(i + 1).last() == items@[i as int]);
            }
            if item.is_file {
                let entry = match Entry::load(item.path.as_str(), read) {
                    Err(e) => {
                        proof {
                            assert(items@[i as int] == *item);
                            assert(entry_load_failed(*read, items@[i as int].path@, e@));
                        }
                        return Err(e);
                    },
                    Ok(entry) => entry,
                };
                proof {
                    let res = choose|res: Result<String, LibSDBootConfError>|
                        read_gave(*read, item.path@, res) && result_view(
                            Ok::<Entry, LibSDBootConfError>(entry),
                        ) == load_outcome(entry_id_of_path(item.path@)->0, res);
                    assert(read_gave(*read, item.path@, Ok(res->Ok_0)));
                    assert(entry_read(*read, item.path@, entry@));
                }
                let ghost before = entry_views(entries@);
                entries.push(entry);
                proof {
                    assert(entry_views(entries@).drop_last() =~= before);
                }
            }
            i += 1;
        }
        proof {
            assert(items@.take(i as int) =~= items@);
        }
        self.config = config;
        self.entries = entries;
        Ok(())
    }

    /// Writes the loader settings to `loader.conf` under the working
    /// directory.
    pub fn write_config<W: Fn(&str, &str) -> Result<(), LibSDBootConfError>>(&self, write: &W) -> (r:
        Result<(), LibSDBootConfError>)
        requires
            forall|p: &str, t: &str| write.requires((p, t)),
        ensures
            write_gave(*write, loader_path(self.working_dir@), render_config(self.config@), r),
    {
        let path = join_path_str(self.working_dir.as_str(), "loader.conf");
        self.config.write(path.as_str(), write)
    }

    /// Writes each entry to `entries/<id>.conf` under the working directory,
    /// in order, up to the first failure.
    pub fn write_entries<W: Fn(&str, &str) -> Result<(), LibSDBootConfError>>(&self, write: &W) -> (r:
        Result<(), LibSDBootConfError>)
        requires
            forall|p: &str, t: &str| write.requires((p, t)),
        ensures
            entries_written(*write, self.working_dir@, entry_views(self.entries@), r),
    {
        let ghost es = entry_views(self.entries@);
        let dir = join_path_str(self.working_dir.as_str(), "entries");
        let mut i: usize = 0;
        while i < self.entries.len()
            invariant
                i <= self.entries.len(),
                es == entry_views(self.entries@),
                dir@ == entries_dir(self.working_dir@),
                forall|p: &str, t: &str| write.requires((p, t)),
                forall|j: int|
                    #![trigger es[j]]
                    0 <= j < i ==> entry_written(*write, self.working_dir@, es[j], Ok(())),
            decreases self.entries.len() - i,
        {
            let entry = &self.entries[i];
            let mut name = entry.id.clone();
            name.append(".conf");
            let path = join_path_str(dir.as_str(), name.as_str());
            let res = entry.write(path.as_str(), write);
            proof {
                assert(es[i as int] == entry@);
            }
            match res {
                Err(e) => {
                    proof {
                        assert(entry_written(*write, self.working_dir@, es[i as int], res));
                    }
                    return Err(e);
                },
                Ok(()) => {
                    proof {
                        assert(res->Ok_0 == ());
                        assert(entry_written(*write, self.working_dir@, es[i as int], Ok(())));
                    }
                },
            }
            i += 1;
        }
        Ok(())
    }

    /// Writes the loader settings, then the entries; the first failure ends
    /// the writing.
    pub fn write_all<W: Fn(&str, &str) -> Result<(), LibSDBootConfError>>(&self, write: &W) -> (r:
        Result<(), LibSDBootConfError>)
        requires
            forall|p: &str, t: &str| write.requires((p, t)),
        ensures
            r is Ok ==> write_gave(
                *write,
                loader_path(self.working_dir@),
                render_config(self.config@),
                Ok(()),
            ) && entries_written(*write, self.working_dir@, entry_views(self.entries@), r),
            r is Err ==> write_gave(
                *write,
                loader_path(self.working_dir@),
                render_config(self.config@),
                r,
            ) || (write_gave(
                *write,
                loader_path(self.working_dir@),
                render_config(self.config@),
                Ok(()),
            ) && entries_written(*write, self.working_dir@, entry_views(self.entries@), r)),
    {
        let rc = self.write_config(write);
        match rc {
            Err(e) => {
                return Err(e);
            },
            Ok(()) => {},
        }
        let re = self.write_entries(write);
        proof {
            assert(rc->Ok_0 == ());
        }
        re
    }
}

/// Builds a `SystemdBootConf` one part at a time.
#[derive(Debug)]
pub struct SystemdBootConfBuilder {
    systemd_boot_conf: SystemdBootConf,
}

impl View for SystemdBootConfBuilder {
    type V = StoreModel;

    closed spec fn view(&self) -> StoreModel {
        self.systemd_boot_conf@
    }
}

impl SystemdBootConfBuilder {
    /// A builder for an empty configuration of `working_dir`.
    pub fn new(working_dir: String) -> (r: SystemdBootConfBuilder)
        ensures
            r@.working_dir == working_dir@,
            r@.config == config::empty_config(),
            r@.entries == Seq::<EntryModel>::empty(),
    {
        let r = SystemdBootConfBuilder { systemd_boot_conf: SystemdBootConf::init(working_dir) };
        assert(r@.entries =~= Seq::<EntryModel>::empty());
        r
    }

    /// Sets the loader settings.
    pub fn config(self, config: Config) -> (r: SystemdBootConfBuilder)
        ensures
            r@.working_dir == self@.working_dir,
            r@.config == config@,
            r@.entries == self@.entries,
    {
        let mut c = self.systemd_boot_conf;
        c.config = config;
        SystemdBootConfBuilder { systemd_boot_conf: c }
    }

    /// Sets the entries.
    pub fn entries(self, entries: Vec<Entry>) -> (r: SystemdBootConfBuilder)
        ensures
            r@.working_dir == self@.working_dir,
            r@.config == self@.config,
            r@.entries == entry_views(entries@),
    {
        let mut c = self.systemd_boot_conf;
        c.entries = entries;
        SystemdBootConfBuilder { systemd_boot_conf: c }
    }

    /// Adds an entry at the end.
    pub fn entry(self, entry: Entry) -> (r: SystemdBootConfBuilder)
        ensures
            r@.working_dir == self@.working_dir,
            r@.config == self@.config,
            r@.entries == self@.entries.push(entry@),
    {
        let mut c = self.systemd_boot_conf;
        let ghost before = entry_views(c.entries@);
        c.entries.push(entry);
        assert(entry_views(c.entries@) =~= before.push(entry@));
        SystemdBootConfBuilder { systemd_boot_conf: c }
    }

    /// The configuration built.
    pub fn build(self) -> (r: SystemdBootConf)
        ensures
            r@ == self@,
    {
        self.systemd_boot_conf
    }
}

} // verus!
