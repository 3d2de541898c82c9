//! Entries of the boot menu: one file of `keyword value` lines each.
use vstd::prelude::*;

use crate::error::{read_gave, result_view, write_gave, ErrorModel, LibSDBootConfError};
use crate::text::{
    ends_with, ends_with_str, file_name, file_name_of, find_char_from, is_plain_line,
    is_skipped, join_lines, lines_of, split_first_space, split_lines, str_eq, views,
};

verus! {

/// The keyword that starts a line of an entry file.
#[derive(Clone, Copy, Debug, PartialEq, Eq, Structural)]
pub enum Keyword {
    Title,
    Version,
    MachineId,
    Efi,
    Options,
    Linux,
    Initrd,
}

/// The text of a keyword.
pub open spec fn keyword_text(k: Keyword) -> Seq<char> {
    match k {
        Keyword::Title => "title"@,
        Keyword::Version => "version"@,
        Keyword::MachineId => "machine-id"@,
        Keyword::Efi => "efi"@,
        Keyword::Options => "options"@,
        Keyword::Linux => "linux"@,
        Keyword::Initrd => "initrd"@,
    }
}

/// The keyword whose text is `key`, if any.
pub open spec fn keyword_of(key: Seq<char>) -> Option<Keyword> {
    if key == "title"@ {
        Some(Keyword::Title)
    } else if key == "version"@ {
        Some(Keyword::Version)
    } else if key == "machine-id"@ {
        Some(Keyword::MachineId)
    } else if key == "efi"@ {
        Some(Keyword::Efi)
    } else if key == "options"@ {
        Some(Keyword::Options)
    } else if key == "linux"@ {
        Some(Keyword::Linux)
    } else if key == "initrd"@ {
        Some(Keyword::Initrd)
    } else {
        None
    }
}

/// One field of an entry: a keyword and its value.
pub struct TokenModel {
    pub keyword: Keyword,
    pub value: Seq<char>,
}

/// A possible field of an `Entry`. Paths are held as their text.
#[derive(Clone, Debug, PartialEq, Eq)]
pub enum Token {
    /// Text to show in the menu.
    Title(String),
    /// Version string to append to the title when the title is not unique.
    Version(String),
    /// Machine identifier to append to the title when the title is not unique.
    MachineID(String),
    /// Executable EFI image.
    Efi(String),
    /// Options to pass to the EFI image or kernel command line.
    Options(String),
    /// Linux kernel image.
    Linux(String),
    /// Initramfs image.
    Initrd(String),
}

impl View for Token {
    type V = TokenModel;

    open spec fn view(&self) -> TokenModel {
        match self {
            Token::Title(v) => TokenModel { keyword: Keyword::Title, value: v@ },
            Token::Version(v) => TokenModel { keyword: Keyword::Version, value: v@ },
            Token::MachineID(v) => TokenModel { keyword: Keyword::MachineId, value: v@ },
            Token::Efi(v) => TokenModel { keyword: Keyword::Efi, value: v@ },
            Token::Options(v) => TokenModel { keyword: Keyword::Options, value: v@ },
            Token::Linux(v) => TokenModel { keyword: Keyword::Linux, value: v@ },
            Token::Initrd(v) => TokenModel { keyword: Keyword::Initrd, value: v@ },
        }
    }
}

/// A token whose line reads back as the same token: its value holds no
/// line break and does not end in a carriage return.
pub open spec fn is_valid_token(t: TokenModel) -> bool {
    is_plain_line(t.value)
}

/// The line of a token, without its line break.
pub open spec fn token_line(t: TokenModel) -> Seq<char> {
    keyword_text(t.keyword) + " "@ + t.value
}

/// The text of a token: its line and a line break.
pub open spec fn render_token(t: TokenModel) -> Seq<char> {
    token_line(t) + "\n"@
}

/// A line read as a token: the keyword up to the first space, the value after
/// it.
pub open spec fn parse_token(line: Seq<char>) -> Result<TokenModel, ErrorModel> {
    match split_first_space(line) {
        None => Err(ErrorModel::EntryParse),
        Some((key, value)) => match keyword_of(key) {
            None => Err(ErrorModel::InvalidToken(key)),
            Some(k) => Ok(TokenModel { keyword: k, value }),
        },
    }
}

/// The tokens of a sequence of lines, skipped lines left out; the first line
/// that is no token decides the error.
pub open spec fn parse_lines(ls: Seq<Seq<char>>) -> Result<Seq<TokenModel>, ErrorModel>
    decreases ls.len(),
{
    if ls.len() == 0 {
        Ok(seq![])
    } else if is_skipped(ls[0]) {
        parse_lines(ls.drop_first())
    } else {
        match parse_token(ls[0]) {
            Err(e) => Err(e),
            Ok(t) => match parse_lines(ls.drop_first()) {
                Err(e) => Err(e),
                Ok(ts) => Ok(seq![t] + ts),
            },
        }
    }
}

/// The tokens of an entry file's text.
pub open spec fn parse_entry(s: Seq<char>) -> Result<Seq<TokenModel>, ErrorModel> {
    parse_lines(lines_of(s))
}

/// The lines of the given tokens, in order.
pub open spec fn token_lines(ts: Seq<TokenModel>) -> Seq<Seq<char>> {
    ts.map_values(|t: TokenModel| token_line(t))
}

/// The text of an entry file holding the given tokens, in order.
pub open spec fn render_tokens(ts: Seq<TokenModel>) -> Seq<char> {
    join_lines(token_lines(ts))
}

/// A boot menu entry, as the identifier and the tokens.
pub struct EntryModel {
    pub id: Seq<char>,
    pub tokens: Seq<TokenModel>,
}

/// A boot menu entry.
#[derive(Clone, Debug, PartialEq, Eq)]
pub struct Entry {
    /// The identifier: the file name of the entry without `.conf`, and what
    /// the `default` of a `Config` names.
    pub id: String,
    /// The fields of the entry, in file order.
    pub tokens: Vec<Token>,
}

impl View for Entry {
    type V = EntryModel;

    open spec fn view(&self) -> EntryModel {
        EntryModel { id: self.id@, tokens: self.tokens@.map_values(|t: Token| t@) }
    }
}

/// The identifier of the entry file at `path`: its file name without the
/// `.conf` suffix, which it must have.
pub open spec fn entry_id_of_path(path: Seq<char>) -> Option<Seq<char>> {
    let name = file_name(path);
    if ends_with(name, ".conf"@) {
        Some(name.subrange(0, name.len() - ".conf"@.len()))
    } else {
        None
    }
}

/// What loading the entry with identifier `id` gives, when reading its file
/// gave `read`.
pub open spec fn load_outcome(id: Seq<char>, read: Result<String, LibSDBootConfError>) -> Result<
    EntryModel,
    ErrorModel,
> {
    match read {
        Err(e) => Err(e@),
        Ok(text) => match parse_entry(text@) {
            Err(e) => Err(e),
            Ok(ts) => Ok(EntryModel { id, tokens: ts }),
        },
    }
}

/// The keyword whose text is `key`, if any.
pub fn keyword_of_str(key: &str) -> (r: Option<Keyword>)
    ensures
        r == keyword_of(key@),
{
    if str_eq(key, "title") {
        Some(Keyword::Title)
    } else if str_eq(key, "version") {
        Some(Keyword::Version)
    } else if str_eq(key, "machine-id") {
        Some(Keyword::MachineId)
    } else if str_eq(key, "efi") {
        Some(Keyword::Efi)
    } else if str_eq(key, "options") {
        Some(Keyword::Options)
    } else if str_eq(key, "linux") {
        Some(Keyword::Linux)
    } else if str_eq(key, "initrd") {
        Some(Keyword::Initrd)
    } else {
        None
    }
}

impl Keyword {
    /// The text of the keyword.
    pub fn text(&self) -> (r: &'static str)
        ensures
            r@ == keyword_text(*self),
    {
        match self {
            Keyword::Title => "title",
            Keyword::Version => "version",
            Keyword::MachineId => "machine-id",
            Keyword::Efi => "efi",
            Keyword::Options => "options",
            Keyword::Linux => "linux",
            Keyword::Initrd => "initrd",
        }
    }
}

impl Token {
    /// The token with the given keyword and value.
    pub fn with_keyword(k: Keyword, value: String) -> (r: Token)
        ensures
            r@ == (TokenModel { keyword: k, value: value@ }),
    {
        match k {
            Keyword::Title => Token::Title(value),
            Keyword::Version => Token::Version(value),
            Keyword::MachineId => Token::MachineID(value),
            Keyword::Efi => Token::Efi(value),
            Keyword::Options => Token::Options(value),
            Keyword::Linux => Token::Linux(value),
            Keyword::Initrd => Token::Initrd(value),
        }
    }

    /// The keyword of the token.
    pub fn keyword(&self) -> (r: Keyword)
        ensures
            r == self@.keyword,
    {
        match self {
            Token::Title(_) => Keyword::Title,
            Token::Version(_) => Keyword::Version,
            Token::MachineID(_) => Keyword::MachineId,
            Token::Efi(_) => Keyword::Efi,
            Token::Options(_) => Keyword::Options,
            Token::Linux(_) => Keyword::Linux,
            Token::Initrd(_) => Keyword::Initrd,
        }
    }

    /// The value of the token.
    pub fn value(&self) -> (r: &String)
        ensures
            r@ == self@.value,
    {
        match self {
            Token::Title(v) => v,
            Token::Version(v) => v,
            Token::MachineID(v) => v,
            Token::Efi(v) => v,
            Token::Options(v) => v,
            Token::Linux(v) => v,
            Token::Initrd(v) => v,
        }
    }

    /// Reads one line of an entry file as a token.
    pub fn from_str(line: &str) -> (r: Result<Token, LibSDBootConfError>)
        ensures
            result_view(r) == parse_token(line@),
    {
        let n = line.unicode_len();
        let i = find_char_from(line, ' ', 0);
        proof {
            assert(line@.subrange(0, n as int) =~= line@);
        }
        if i >= n {
            return Err(LibSDBootConfError::EntryParseError);
        }
        let key = line.substring_char(0, i);
        let value = line.substring_char(i + 1, n).to_owned();
        match keyword_of_str(key) {
            None => Err(LibSDBootConfError::InvalidToken(key.to_owned())),
            Some(k) => Ok(Token::with_keyword(k, value)),
        }
    }

    /// The text of the token: its keyword, a space, its value and a line
    /// break.
    pub fn to_string(&self) -> (r: String)
        ensures
            r@ == render_token(self@),
    {
        let mut out = self.keyword().text().to_owned();
        out.append(" ");
        out.append(self.value().as_str());
        out.append("\n");
        out
    }
}

impl Entry {
    /// An entry with the given identifier and tokens.
    pub fn new(id: String, tokens: Vec<Token>) -> (r: Entry)
        ensures
            r.id == id,
            r.tokens == tokens,
    {
        Entry { id, tokens }
    }

    /// Reads the text of an entry file. The identifier is left empty.
    pub fn from_str(s: &str) -> (r: Result<Entry, LibSDBootConfError>)
        ensures
            r is Ok <==> parse_entry(s@) is Ok,
            r is Ok ==> r->Ok_0@ == (EntryModel { id: seq![], tokens: parse_entry(s@)->Ok_0 }),
            r is Err ==> parse_entry(s@) == Err::<Seq<TokenModel>, ErrorModel>(r->Err_0@),
    {
        let lines = split_lines(s);
        let ghost ls = views(lines@);
        let mut tokens: Vec<Token> = Vec::new();
        let mut i: usize = 0;
        proof {
            assert(ls.skip(0) =~= ls);
            assert(tokens@.map_values(|t: Token| t@) =~= seq![]);
        }
        while i < lines.len()
            invariant
                ls == views(lines@),
                ls == lines_of(s@),
                i <= lines.len(),
                parse_lines(ls) == (match parse_lines(ls.skip(i as int)) {
                    Ok(ts) => Ok(tokens@.map_values(|t: Token| t@) + ts),
                    Err(e) => Err(e),
                }),
            decreases lines.len() - i,
        {
            let line = lines[i].as_str();
            proof {
                assert(line@ == ls[i as int]);
                assert(ls.skip(i as int).drop_first() =~= ls.skip(i + 1));
                assert(ls.skip(i as int)[0] == ls[i as int]);
            }
            let n = line.unicode_len();
            if n == 0 || line.get_char(0) == '#' {
                i += 1;
            } else {
                match Token::from_str(line) {
                    Err(e) => {
                        return Err(e);
                    },
                    Ok(t) => {
                        let ghost old_tokens = tokens@.map_values(|t: Token| t@);
                        tokens.push(t);
                        proof {
                            assert(tokens@.map_values(|t: Token| t@) =~= old_tokens.push(t@));
                            match parse_lines(ls.skip(i + 1)) {
                                Ok(ts) => {
                                    assert(old_tokens + (seq![t@] + ts) =~= old_tokens.push(t@)
                                        + ts);
                                },
                                Err(_) => {},
                            }
                        }
                        i += 1;
                    },
                }
            }
        }
        proof {
            assert(ls.skip(i as int) =~= seq![]);
            assert(tokens@.map_values(|t: Token| t@) + seq![] =~= tokens@.map_values(
                |t: Token| t@,
            ));
        }
        Ok(Entry { id: String::new(), tokens })
    }

    /// The text of the entry file: the text of each token, in order.
    pub fn to_string(&self) -> (r: String)
        ensures
            r@ == render_tokens(self@.tokens),
    {
        let mut out = String::new();
        let mut i: usize = 0;
        proof {
            reveal_strlit("\n");
            assert(token_lines(self@.tokens.take(0)) =~= seq![]);
        }
        while i < self.tokens.len()
            invariant
                i <= self.tokens.len(),
                out@ == render_tokens(self@.tokens.take(i as int)),
            decreases self.tokens.len() - i,
        {
            let line = self.tokens[i].to_string();
            out.append(line.as_str());
            proof {
                reveal_strlit("\n");
                let pre = token_lines(self@.tokens.take(i as int));
                let tl = token_line(self.tokens[i as int]@);
                assert(token_lines(self@.tokens.take(i + 1))
                    =~= pre.push(tl));
                crate::text::lemma_join_lines_push(pre, tl);
                assert(out@ =~= join_lines(pre) + tl + seq!['\n']);
            }
            i += 1;
        }
        proof {
            assert(self@.tokens.take(i as int) =~= self@.tokens);
        }
        out
    }

    /// The identifier of the entry file at `path`: its file name without the
    /// `.conf` suffix.
    pub fn id_from_path(path: &str) -> (r: Result<String, LibSDBootConfError>)
        ensures
            entry_id_of_path(path@) is Some ==> r is Ok && r->Ok_0@ == entry_id_of_path(
                path@,
            )->0,
            entry_id_of_path(path@) is None ==> r is Err && r->Err_0@
                == ErrorModel::InvalidEntryFilename(path@),
    {
        let name = file_name_of(path);
        if ends_with_str(name.as_str(), ".conf") {
            let m = name.unicode_len();
            let k = ".conf".unicode_len();
            Ok(name.as_str().substring_char(0, m - k).to_owned())
        } else {
            Err(LibSDBootConfError::InvalidEntryFilename(path.to_owned()))
        }
    }

    /// Loads the entry file at `path`, read through `read`: the identifier
    /// comes from the file name, the tokens from the contents.
    pub fn load<R: Fn(&str) -> Result<String, LibSDBootConfError>>(path: &str, read: &R) -> (r:
        Result<Entry, LibSDBootConfError>)
        requires
            forall|p: &str| read.requires((p,)),
        ensures
            entry_id_of_path(path@) is None ==> r is Err && r->Err_0@
                == ErrorModel::InvalidEntryFilename(path@),
            entry_id_of_path(path@) is Some ==> exists|res: Result<String, LibSDBootConfError>|
                read_gave(*read, path@, res) && result_view(r) == load_outcome(
                    entry_id_of_path(path@)->0,
                    res,
                ),
    {
        let id = match Entry::id_from_path(path) {
            Err(e) => {
                return Err(e);
            },
            Ok(id) => id,
        };
        let res = read(path);
        proof {
            assert(read_gave(*read, path@, res));
        }
        match res {
            Err(e) => Err(e),
            Ok(text) => match Entry::from_str(text.as_str()) {
                Err(e) => Err(e),
                Ok(entry) => Ok(Entry { id, tokens: entry.tokens }),
            },
        }
    }

    /// Writes the text of the entry to `path` through `write`.
    pub fn write<W: Fn(&str, &str) -> Result<(), LibSDBootConfError>>(&self, path: &str, write: &W) -> (r:
        Result<(), LibSDBootConfError>)
        requires
            forall|p: &str, t: &str| write.requires((p, t)),
        ensures
            write_gave(*write, path@, render_tokens(self@.tokens), r),
    {
        let text = self.to_string();
        let t = text.as_str();
        let r = write(path, t);
        proof {
            assert(write.ensures((path, t), r));
        }
        r
    }
}

/// Builds an `Entry` one token at a time.
#[derive(Debug)]
pub struct EntryBuilder {
    inner: Entry,
}

impl View for EntryBuilder {
    type V = EntryModel;

    closed spec fn view(&self) -> EntryModel {
        self.inner@
    }
}

impl EntryBuilder {
    /// A builder of an entry with the given identifier and no tokens.
    pub fn new(id: String) -> (r: EntryBuilder)
        ensures
            r@.id == id@,
            r@.tokens == Seq::<TokenModel>::empty(),
    {
        let r = EntryBuilder { inner: Entry { id, tokens: Vec::new() } };
        assert(r@.tokens =~= Seq::<TokenModel>::empty());
        r
    }

    /// Adds a token at the end.
    pub fn token(self, t: Token) -> (r: EntryBuilder)
        ensures
            r@.id == self@.id,
            r@.tokens == self@.tokens.push(t@),
    {
        let mut inner = self.inner;
        let ghost before = inner@.tokens;
        inner.tokens.push(t);
        assert(inner@.tokens =~= before.push(t@));
        EntryBuilder { inner }
    }

    /// Adds a `Title`.
    pub fn title(self, title: String) -> (r: EntryBuilder)
        ensures
            r@.id == self@.id,
            r@.tokens == self@.tokens.push(TokenModel { keyword: Keyword::Title, value: title@ }),
    {
        self.token(Token::Title(title))
    }

    /// Adds a `Version`.
    pub fn version(self, version: String) -> (r: EntryBuilder)
        ensures
            r@.id == self@.id,
            r@.tokens == self@.tokens.push(
                TokenModel { keyword: Keyword::Version, value: version@ },
            ),
    {
        self.token(Token::Version(version))
    }

    /// Adds a `MachineID`.
    pub fn machine_id(self, machine_id: String) -> (r: EntryBuilder)
        ensures
            r@.id == self@.id,
            r@.tokens == self@.tokens.push(
                TokenModel { keyword: Keyword::MachineId, value: machine_id@ },
            ),
    {
        self.token(Token::MachineID(machine_id))
    }

    /// Adds an `Efi`.
    pub fn efi(self, efi: String) -> (r: EntryBuilder)
        ensures
            r@.id == self@.id,
            r@.tokens == self@.tokens.push(TokenModel { keyword: Keyword::Efi, value: efi@ }),
    {
        self.token(Token::Efi(efi))
    }

    /// Adds an `Options`.
    pub fn options(self, options: String) -> (r: EntryBuilder)
        ensures
            r@.id == self@.id,
            r@.tokens == self@.tokens.push(
                TokenModel { keyword: Keyword::Options, value: options@ },
            ),
    {
        self.token(Token::Options(options))
    }

    /// Adds a `Linux`.
    pub fn linux(self, linux: String) -> (r: EntryBuilder)
        ensures
            r@.id == self@.id,
            r@.tokens == self@.tokens.push(TokenModel { keyword: Keyword::Linux, value: linux@ }),
    {
        self.token(Token::Linux(linux))
    }

    /// Adds an `Initrd`.
    pub fn initrd(self, initrd: String) -> (r: EntryBuilder)
        ensures
            r@.id == self@.id,
            r@.tokens == self@.tokens.push(
                TokenModel { keyword: Keyword::Initrd, value: initrd@ },
            ),
    {
        self.token(Token::Initrd(initrd))
    }

    /// The entry built.
    pub fn build(self) -> (r: Entry)
        ensures
            r@ == self@,
    {
        self.inner
    }
}

} // verus!
