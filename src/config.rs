//! The loader settings: which entry is the default, and how long the menu is
//! shown.
use vstd::prelude::*;

use crate::entry::{entry_id_of_path, load_outcome, Entry};
use crate::error::{read_gave, result_view, write_gave, ErrorModel, LibSDBootConfError};
use crate::text::{
    decimal, ends_with, ends_with_str, find_char_from, is_skipped, join_path, join_path_str,
    lines_of, parse_u32, parse_u32_text, push_decimal, split_first_space, split_lines, str_eq,
    views,
};

verus! {

/// The loader settings, as values.
pub struct ConfigModel {
    pub default: Option<Seq<char>>,
    pub timeout: Option<u32>,
}

/// Loader settings with neither field set.
pub open spec fn empty_config() -> ConfigModel {
    ConfigModel { default: None, timeout: None }
}

/// The timeout that a `timeout` value gives: the number it denotes, or 0 for
/// a value that denotes no `u32`.
pub open spec fn timeout_value(value: Seq<char>) -> u32 {
    match parse_u32(value) {
        Some(n) => n,
        None => 0,
    }
}

/// The settings after one more line: skipped lines change nothing, a line
/// without a space is an error, `default` and `timeout` set their field and
/// other keys are ignored.
pub open spec fn config_step(c: ConfigModel, line: Seq<char>) -> Result<ConfigModel, ErrorModel> {
    if is_skipped(line) {
        Ok(c)
    } else {
        match split_first_space(line) {
            None => Err(ErrorModel::ConfigParse),
            Some((key, value)) => if key == "default"@ {
                Ok(ConfigModel { default: Some(value), timeout: c.timeout })
            } else if key == "timeout"@ {
                Ok(ConfigModel { default: c.default, timeout: Some(timeout_value(value)) })
            } else {
                Ok(c)
            },
        }
    }
}

/// The settings after the given lines, from `c`.
pub open spec fn parse_config_lines(ls: Seq<Seq<char>>, c: ConfigModel) -> Result<
    ConfigModel,
    ErrorModel,
>
    decreases ls.len(),
{
    if ls.len() == 0 {
        Ok(c)
    } else {
        match config_step(c, ls[0]) {
            Err(e) => Err(e),
            Ok(next) => parse_config_lines(ls.drop_first(), next),
        }
    }
}

/// The settings that a loader file's text gives.
pub open spec fn parse_config(s: Seq<char>) -> Result<ConfigModel, ErrorModel> {
    parse_config_lines(lines_of(s), empty_config())
}

/// The text of the settings: a `default` line if it is set, then a `timeout`
/// line if it is set.
pub open spec fn render_config(c: ConfigModel) -> Seq<char> {
    let d = match c.default {
        Some(d) => "default "@ + d + "\n"@,
        None => seq![],
    };
    let t = match c.timeout {
        Some(t) => "timeout "@ + decimal(t as nat) + "\n"@,
        None => seq![],
    };
    d + t
}

/// The `default` that names an entry: its identifier with `.conf` added
/// unless it already ends so.
pub open spec fn default_name(id: Seq<char>) -> Seq<char> {
    if ends_with(id, ".conf"@) {
        id
    } else {
        id + ".conf"@
    }
}

/// A loader configuration.
#[derive(Clone, Debug, PartialEq, Eq)]
pub struct Config {
    /// The file name of the default entry.
    pub default: Option<String>,
    /// Timeout in seconds for how long to show the menu.
    pub timeout: Option<u32>,
}

impl View for Config {
    type V = ConfigModel;

    open spec fn view(&self) -> ConfigModel {
        ConfigModel {
            default: match self.default {
                Some(d) => Some(d@),
                None => None,
            },
            timeout: self.timeout,
        }
    }
}

impl Default for Config {
    fn default() -> (r: Config)
        ensures
            r.default is None,
            r.timeout is None,
    {
        Config { default: None, timeout: None }
    }
}

impl Config {
    /// Settings with the given fields.
    pub fn new(default: Option<String>, timeout: Option<u32>) -> (r: Config)
        ensures
            r.default == default,
            r.timeout == timeout,
    {
        Config { default, timeout }
    }

    /// Reads the text of a loader settings file.
    pub fn from_str(s: &str) -> (r: Result<Config, LibSDBootConfError>)
        ensures
            result_view(r) == parse_config(s@),
    {
        let lines = split_lines(s);
        let ghost ls = views(lines@);
        let mut config = Config { default: None, timeout: None };
        let mut i: usize = 0;
        proof {
            assert(ls.skip(0) =~= ls);
        }
        while i < lines.len()
            invariant
                ls == views(lines@),
                ls == lines_of(s@),
                i <= lines.len(),
                parse_config(s@) == parse_config_lines(ls.skip(i as int), config@),
            decreases lines.len() - i,
        {
            let line = lines[i].as_str();
            proof {
                assert(line@ == ls[i as int]);
                assert(ls.skip(i as int).drop_first() =~= ls.skip(i + 1));
                assert(ls.skip(i as int)[0] == ls[i as int]);
            }
            let n = line.unicode_len();
            if !(n == 0 || line.get_char(0) == '#') {
                let k = find_char_from(line, ' ', 0);
                proof {
                    assert(line@.subrange(0, n as int) =~= line@);
                }
                if k >= n {
                    return Err(LibSDBootConfError::ConfigParseError);
                }
                let key = line.substring_char(0, k);
                let value = line.substring_char(k + 1, n);
                if str_eq(key, "default") {
                    config.default = Some(value.to_owned());
                } else if str_eq(key, "timeout") {
                    config.timeout = Some(
                        match parse_u32_text(value) {
                            Some(t) => t,
                            None => 0,
                        },
                    );
                }
            }
            i += 1;
        }
        proof {
            assert(ls.skip(i as int) =~= seq![]);
        }
        Ok(config)
    }

    /// The text of the settings (see `render_config`).
    pub fn to_string(&self) -> (r: String)
        ensures
            r@ == render_config(self@),
    {
        let mut out = String::new();
        match &self.default {
            Some(d) => {
                out.append("default ");
                out.append(d.as_str());
                out.append("\n");
            },
            None => {},
        }
        match self.timeout {
            Some(t) => {
                out.append("timeout ");
                push_decimal(&mut out, t);
                out.append("\n");
            },
            None => {},
        }
        assert(out@ =~= render_config(self@));
        out
    }

    /// Loads the settings file at `path`, read through `read`.
    pub fn load<R: Fn(&str) -> Result<String, LibSDBootConfError>>(path: &str, read: &R) -> (r:
        Result<Config, LibSDBootConfError>)
        requires
            forall|p: &str| read.requires((p,)),
        ensures
            exists|res: Result<String, LibSDBootConfError>|
                read_gave(*read, path@, res) && match res {
                    Err(e) => r == Err::<Config, LibSDBootConfError>(e),
                    Ok(text) => result_view(r) == parse_config(text@),
                },
    {
        let res = read(path);
        proof {
            assert(read_gave(*read, path@, res));
        }
        match res {
            Err(e) => Err(e),
            Ok(text) => Config::from_str(text.as_str()),
        }
    }

    /// Writes the text of the settings to `path` through `write`.
    pub fn write<W: Fn(&str, &str) -> Result<(), LibSDBootConfError>>(&self, path: &str, write: &W) -> (r:
        Result<(), LibSDBootConfError>)
        requires
            forall|p: &str, t: &str| write.requires((p, t)),
        ensures
            write_gave(*write, path@, render_config(self@), r),
    {
        let text = self.to_string();
        let t = text.as_str();
        let r = write(path, t);
        proof {
            assert(write.ensures((path, t), r));
        }
        r
    }

    /// Makes `entry` the default entry.
    pub fn set_default(&mut self, entry: &Entry)
        ensures
            final(self)@.default == Some(default_name(entry.id@)),
            final(self).timeout == old(self).timeout,
    {
        let mut name = entry.id.clone();
        if !ends_with_str(entry.id.as_str(), ".conf") {
            name.append(".conf");
        }
        self.default = Some(name);
    }

    /// Loads the default entry from `directory` through `read`: `None` when
    /// no default is set, else the entry file that the default names, or the
    /// error that loading it gave.
    pub fn default_entry<R: Fn(&str) -> Result<String, LibSDBootConfError>>(
        &self,
        directory: &str,
        read: &R,
    ) -> (r: Result<Option<Entry>, LibSDBootConfError>)
        requires
            forall|p: &str| read.requires((p,)),
        ensures
            self.default is None ==> r is Ok && r->Ok_0 is None,
            self.default is Some ==> ({
                let p = join_path(directory@, self.default->0@);
                &&& entry_id_of_path(p) is None ==> r is Err && r->Err_0@
                    == ErrorModel::InvalidEntryFilename(p)
                &&& entry_id_of_path(p) is Some ==> exists|
                    res: Result<String, LibSDBootConfError>,
                |
                    read_gave(*read, p, res) && match load_outcome(entry_id_of_path(p)->0, res) {
                        Ok(m) => r is Ok && r->Ok_0 is Some && r->Ok_0->0@ == m,
                        Err(e) => r is Err && r->Err_0@ == e,
                    }
            }),
    {
        match &self.default {
            None => Ok(None),
            Some(d) => {
                let path = join_path_str(directory, d.as_str());
                match Entry::load(path.as_str(), read) {
                    Ok(e) => Ok(Some(e)),
                    Err(e) => Err(e),
                }
            },
        }
    }
}

/// Builds a `Config` one field at a time.
#[derive(Debug)]
pub struct ConfigBuilder {
    inner: Config,
}

impl View for ConfigBuilder {
    type V = ConfigModel;

    closed spec fn view(&self) -> ConfigModel {
        self.inner@
    }
}

impl ConfigBuilder {
    /// A builder of settings with neither field set.
    pub fn new() -> (r: ConfigBuilder)
        ensures
            r@ == empty_config(),
    {
        ConfigBuilder { inner: Config { default: None, timeout: None } }
    }

    /// Sets the default entry's file name.
    pub fn default(self, default: String) -> (r: ConfigBuilder)
        ensures
            r@ == (ConfigModel { default: Some(default@), timeout: self@.timeout }),
    {
        let mut inner = self.inner;
        inner.default = Some(default);
        ConfigBuilder { inner }
    }

    /// Sets the timeout.
    pub fn timeout(self, timeout: u32) -> (r: ConfigBuilder)
        ensures
            r@ == (ConfigModel { default: self@.default, timeout: Some(timeout) }),
    {
        let mut inner = self.inner;
        inner.timeout = Some(timeout);
        ConfigBuilder { inner }
    }

    /// Sets the default entry to `entry`.
    pub fn default_entry(self, entry: &Entry) -> (r: ConfigBuilder)
        ensures
            r@ == (ConfigModel { default: Some(default_name(entry.id@)), timeout: self@.timeout }),
    {
        let mut inner = self.inner;
        inner.set_default(entry);
        ConfigBuilder { inner }
    }

    /// The settings built.
    pub fn build(self) -> (r: Config)
        ensures
            r@ == self@,
    {
        self.inner
    }
}

} // verus!
