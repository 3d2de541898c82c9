//! Properties of the codecs that relate several functions: round trips,
//! tolerance of comments, and the handling of unknown keys.
use vstd::prelude::*;

use crate::config::{
    config_step, default_name, parse_config, parse_config_lines, render_config, ConfigModel,
};
use crate::entry::{
    entry_id_of_path, is_valid_token, keyword_of, keyword_text, parse_entry, parse_lines,
    parse_token, render_token, render_tokens, token_line, token_lines, Keyword, TokenModel,
};
use crate::error::ErrorModel;
use crate::text::{
    contains, decimal, ends_with, file_name, index_of, is_plain_line, is_skipped, join_lines,
    lemma_decimal, lemma_index_of_append, lemma_lines_of_join, lemma_parse_u32_decimal, lines_of,
    parse_u32, split_first_space,
};
use crate::{entries_dir, entry_path, loader_path};

verus! {

/// The lines that the codecs read: the given lines without the skipped ones.
pub open spec fn without_skipped(ls: Seq<Seq<char>>) -> Seq<Seq<char>>
    decreases ls.len(),
{
    if ls.len() == 0 {
        ls
    } else if is_skipped(ls[0]) {
        without_skipped(ls.drop_first())
    } else {
        seq![ls[0]] + without_skipped(ls.drop_first())
    }
}

/// The lines of the text of the settings.
pub open spec fn config_lines(c: ConfigModel) -> Seq<Seq<char>> {
    let d = match c.default {
        Some(d) => seq!["default "@ + d],
        None => seq![],
    };
    let t = match c.timeout {
        Some(t) => seq!["timeout "@ + decimal(t as nat)],
        None => seq![],
    };
    d + t
}

/// Settings whose text reads back as the same settings: a default, if set,
/// holds no line break and does not end in a carriage return.
pub open spec fn is_valid_config(c: ConfigModel) -> bool {
    c.default is Some ==> is_plain_line(c.default->0)
}

proof fn lemma_plain_word(w: Seq<char>)
    requires
        w.len() > 0,
        w[0] != '#',
        forall|i: int| 0 <= i < w.len() ==> #[trigger] w[i] != ' ' && w[i] != '\n' && w[i] != '\r',
    ensures
        !contains(w, ' '),
        !contains(w, '\n'),
        w.last() != '\r',
{
}

proof fn lemma_keywords()
    ensures
        forall|k: Keyword|
            #![trigger keyword_text(k)]
            {
                &&& keyword_of(keyword_text(k)) == Some(k)
                &&& keyword_text(k).len() > 0
                &&& keyword_text(k)[0] != '#'
                &&& !contains(keyword_text(k), ' ')
                &&& !contains(keyword_text(k), '\n')
                &&& keyword_text(k).last() != '\r'
            },
{
    reveal_strlit("title");
    reveal_strlit("version");
    reveal_strlit("machine-id");
    reveal_strlit("efi");
    reveal_strlit("options");
    reveal_strlit("linux");
    reveal_strlit("initrd");
    assert("title"@ =~= seq!['t', 'i', 't', 'l', 'e']);
    assert("version"@ =~= seq!['v', 'e', 'r', 's', 'i', 'o', 'n']);
    assert("machine-id"@ =~= seq!['m', 'a', 'c', 'h', 'i', 'n', 'e', '-', 'i', 'd']);
    assert("efi"@ =~= seq!['e', 'f', 'i']);
    assert("options"@ =~= seq!['o', 'p', 't', 'i', 'o', 'n', 's']);
    assert("linux"@ =~= seq!['l', 'i', 'n', 'u', 'x']);
    assert("initrd"@ =~= seq!['i', 'n', 'i', 't', 'r', 'd']);
    assert("title"@[0] != "linux"@[0]);
    assert("version"@[0] != "options"@[0]);
    lemma_plain_word("title"@);
    lemma_plain_word("version"@);
    lemma_plain_word("machine-id"@);
    lemma_plain_word("efi"@);
    lemma_plain_word("options"@);
    lemma_plain_word("linux"@);
    lemma_plain_word("initrd"@);
}

proof fn lemma_not_contains_append(a: Seq<char>, b: Seq<char>, c: char)
    requires
        !contains(a, c),
        !contains(b, c),
    ensures
        !contains(a + b, c),
{
    assert forall|i: int| 0 <= i < (a + b).len() implies (a + b)[i] != c by {
        if i < a.len() {
            assert((a + b)[i] == a[i]);
        } else {
            assert((a + b)[i] == b[i - a.len()]);
        }
    }
}

/// `key`, a space and `value` split at the first space give back `key` and
/// `value`, when `key` holds no space.
proof fn lemma_split_key_value(key: Seq<char>, value: Seq<char>)
    requires
        !contains(key, ' '),
    ensures
        split_first_space(key + " "@ + value) == Some((key, value)),
{
    reveal_strlit(" ");
    let line = key + " "@ + value;
    assert(line =~= key + (" "@ + value));
    lemma_index_of_append(key, " "@ + value, ' ');
    assert((" "@ + value)[0] == ' ');
    assert(index_of(" "@ + value, ' ') == 0);
    assert(line.subrange(0, key.len() as int) =~= key);
    assert(line.subrange(key.len() as int + 1, line.len() as int) =~= value);
}

/// `key`, a space and `value` make a plain line when `key` and `value` hold
/// no line break and `value` does not end in a carriage return.
proof fn lemma_key_value_plain(key: Seq<char>, value: Seq<char>)
    requires
        !contains(key, '\n'),
        is_plain_line(value),
    ensures
        is_plain_line(key + " "@ + value),
{
    reveal_strlit(" ");
    assert(!contains(" "@, '\n'));
    lemma_not_contains_append(key, " "@, '\n');
    lemma_not_contains_append(key + " "@, value, '\n');
    let line = key + " "@ + value;
    if value.len() > 0 {
        assert(line.last() == value.last());
    } else {
        assert(line.last() == ' ');
    }
}

proof fn lemma_token_line(t: TokenModel)
    requires
        is_valid_token(t),
    ensures
        parse_token(token_line(t)) == Ok::<TokenModel, ErrorModel>(t),
        is_plain_line(token_line(t)),
        !is_skipped(token_line(t)),
{
    lemma_keywords();
    let k = keyword_text(t.keyword);
    lemma_split_key_value(k, t.value);
    lemma_key_value_plain(k, t.value);
    assert(token_line(t)[0] == k[0]);
}

/// A valid token's text read back as a line gives the token: its text is
/// its line and a line break, and its line parses as the token.
pub proof fn lemma_token_round_trip(t: TokenModel)
    requires
        is_valid_token(t),
    ensures
        render_token(t) == token_line(t) + seq!['\n'],
        parse_token(token_line(t)) == Ok::<TokenModel, ErrorModel>(t),
        parse_entry(render_token(t)) == Ok::<Seq<TokenModel>, ErrorModel>(seq![t]),
{
    reveal_strlit("\n");
    lemma_token_line(t);
    let ls = seq![token_line(t)];
    assert(render_token(t) =~= token_line(t) + seq!['\n']);
    assert(ls.drop_first() =~= Seq::<Seq<char>>::empty());
    assert(join_lines(ls.drop_first()) == Seq::<char>::empty());
    assert(join_lines(ls) =~= token_line(t) + seq!['\n']);
    lemma_lines_of_join(ls);
    assert(lines_of(render_token(t)) == ls);
    assert(parse_lines(ls.drop_first()) == Ok::<Seq<TokenModel>, ErrorModel>(seq![]));
    assert(seq![t] =~= seq![t] + Seq::<TokenModel>::empty());
}

proof fn lemma_parse_token_lines(ts: Seq<TokenModel>)
    requires
        forall|i: int| 0 <= i < ts.len() ==> is_valid_token(#[trigger] ts[i]),
    ensures
        parse_lines(token_lines(ts)) == Ok::<Seq<TokenModel>, ErrorModel>(ts),
    decreases ts.len(),
{
    let ls = token_lines(ts);
    if ts.len() > 0 {
        let rest = ts.drop_first();
        assert forall|i: int| 0 <= i < rest.len() implies is_valid_token(#[trigger] rest[i]) by {
            assert(rest[i] == ts[i + 1]);
        }
        lemma_parse_token_lines(rest);
        assert(ls.drop_first() =~= token_lines(rest));
        assert(is_valid_token(ts[0]));
        lemma_token_line(ts[0]);
        assert(ls[0] == token_line(ts[0]));
        assert(!is_skipped(ls[0]));
        assert(parse_token(ls[0]) == Ok::<TokenModel, ErrorModel>(ts[0]));
        assert(seq![ts[0]] + rest =~= ts);
    } else {
        assert(ls =~= Seq::<Seq<char>>::empty());
        assert(ts =~= Seq::<TokenModel>::empty());
    }
}

/// Entry round trip: the text of valid tokens reads back as the same tokens,
/// in the same order.
pub proof fn lemma_entry_round_trip(ts: Seq<TokenModel>)
    requires
        forall|i: int| 0 <= i < ts.len() ==> is_valid_token(#[trigger] ts[i]),
    ensures
        parse_entry(render_tokens(ts)) == Ok::<Seq<TokenModel>, ErrorModel>(ts),
{
    let ls = token_lines(ts);
    assert forall|i: int| 0 <= i < ls.len() implies is_plain_line(#[trigger] ls[i]) by {
        assert(is_valid_token(ts[i]));
        lemma_token_line(ts[i]);
    }
    lemma_lines_of_join(ls);
    lemma_parse_token_lines(ts);
}

proof fn lemma_setting_keys()
    ensures
        !contains("default"@, ' '),
        !contains("timeout"@, ' '),
        !contains("default"@, '\n'),
        !contains("timeout"@, '\n'),
        "default "@ == "default"@ + " "@,
        "timeout "@ == "timeout"@ + " "@,
        "timeout"@ != "default"@,
        "default"@[0] != '#',
        "timeout"@[0] != '#',
{
    reveal_strlit("default ");
    reveal_strlit("timeout ");
    reveal_strlit("default");
    reveal_strlit("timeout");
    reveal_strlit(" ");
    assert("default "@ =~= "default"@ + " "@);
    assert("timeout "@ =~= "timeout"@ + " "@);
    assert("timeout"@[0] != "default"@[0]);
}

/// A `default` line sets the default to its value.
proof fn lemma_default_line(d: Seq<char>, c: ConfigModel)
    requires
        is_plain_line(d),
    ensures
        is_plain_line("default "@ + d),
        !is_skipped("default "@ + d),
        config_step(c, "default "@ + d) == Ok::<ConfigModel, ErrorModel>(
            ConfigModel { default: Some(d), timeout: c.timeout },
        ),
{
    lemma_setting_keys();
    reveal_strlit("default ");
    assert("default "@ + d == "default"@ + " "@ + d);
    lemma_key_value_plain("default"@, d);
    lemma_split_key_value("default"@, d);
    assert(("default "@ + d)[0] == 'd');
}

/// A `timeout` line holding the decimal text of `t` sets the timeout to `t`.
proof fn lemma_timeout_line(t: u32, c: ConfigModel)
    ensures
        is_plain_line("timeout "@ + decimal(t as nat)),
        !is_skipped("timeout "@ + decimal(t as nat)),
        config_step(c, "timeout "@ + decimal(t as nat)) == Ok::<ConfigModel, ErrorModel>(
            ConfigModel { default: c.default, timeout: Some(t) },
        ),
{
    lemma_setting_keys();
    reveal_strlit("timeout ");
    lemma_decimal(t as nat);
    let dt = decimal(t as nat);
    assert(!contains(dt, '\n')) by {
        assert forall|i: int| 0 <= i < dt.len() implies dt[i] != '\n' by {
            assert(crate::text::is_digit(dt[i]));
        }
    }
    assert(crate::text::is_digit(dt[dt.len() - 1]));
    assert("timeout "@ + dt == "timeout"@ + " "@ + dt);
    lemma_key_value_plain("timeout"@, dt);
    lemma_split_key_value("timeout"@, dt);
    lemma_parse_u32_decimal(t);
    assert(("timeout "@ + dt)[0] == 't');
}

proof fn lemma_render_config_lines(c: ConfigModel)
    ensures
        render_config(c) == join_lines(config_lines(c)),
{
    reveal_strlit("\n");
    let e = Seq::<Seq<char>>::empty();
    assert(join_lines(e) =~= Seq::<char>::empty());
    let d = match c.default {
        Some(d) => e.push("default "@ + d),
        None => e,
    };
    crate::text::lemma_join_lines_push(e, "default "@ + c.default->0);
    assert(join_lines(d) =~= match c.default {
        Some(v) => "default "@ + v + "\n"@,
        None => Seq::<char>::empty(),
    });
    let ls = match c.timeout {
        Some(t) => d.push("timeout "@ + decimal(t as nat)),
        None => d,
    };
    crate::text::lemma_join_lines_push(d, "timeout "@ + decimal(c.timeout->0 as nat));
    assert(ls =~= config_lines(c));
    assert(render_config(c) =~= join_lines(ls));
}

proof fn lemma_config_lines_plain(c: ConfigModel)
    requires
        is_valid_config(c),
    ensures
        forall|i: int|
            0 <= i < config_lines(c).len() ==> is_plain_line(#[trigger] config_lines(c)[i]),
{
    let ls = config_lines(c);
    let empty = ConfigModel { default: None, timeout: None };
    if let Some(d) = c.default {
        lemma_default_line(d, empty);
    }
    if let Some(t) = c.timeout {
        lemma_timeout_line(t, empty);
    }
    assert forall|i: int| 0 <= i < ls.len() implies is_plain_line(#[trigger] ls[i]) by {
        if c.default is Some && i == 0 {
            assert(ls[i] == "default "@ + c.default->0);
        } else {
            assert(ls[i] == "timeout "@ + decimal(c.timeout->0 as nat));
        }
    }
}

proof fn lemma_parse_config_lines(c: ConfigModel)
    requires
        is_valid_config(c),
    ensures
        parse_config_lines(config_lines(c), ConfigModel { default: None, timeout: None }) == Ok::<
            ConfigModel,
            ErrorModel,
        >(c),
{
    let ls = config_lines(c);
    let e = Seq::<Seq<char>>::empty();
    let empty = ConfigModel { default: None, timeout: None };
    let mid = ConfigModel { default: c.default, timeout: None };
    if let Some(d) = c.default {
        lemma_default_line(d, empty);
    }
    if let Some(t) = c.timeout {
        lemma_timeout_line(t, mid);
    }
    let rest = match c.timeout {
        Some(t) => seq!["timeout "@ + decimal(t as nat)],
        None => e,
    };
    assert(parse_config_lines(e, c) == Ok::<ConfigModel, ErrorModel>(c));
    if c.timeout is Some {
        assert(rest.drop_first() =~= e);
    }
    assert(parse_config_lines(rest, mid) == Ok::<ConfigModel, ErrorModel>(c));
    if c.default is Some {
        assert(ls =~= seq!["default "@ + c.default->0] + rest);
        assert(ls.drop_first() =~= rest);
    } else {
        assert(ls =~= rest);
    }
}

/// Config round trip: the text of valid settings, with any of their fields
/// set or unset, reads back as the same settings.
pub proof fn lemma_config_round_trip(c: ConfigModel)
    requires
        is_valid_config(c),
    ensures
        parse_config(render_config(c)) == Ok::<ConfigModel, ErrorModel>(c),
{
    lemma_render_config_lines(c);
    lemma_config_lines_plain(c);
    lemma_lines_of_join(config_lines(c));
    lemma_parse_config_lines(c);
}

proof fn lemma_without_skipped_plain(ls: Seq<Seq<char>>)
    requires
        forall|i: int| 0 <= i < ls.len() ==> is_plain_line(#[trigger] ls[i]),
    ensures
        forall|i: int|
            0 <= i < without_skipped(ls).len() ==> is_plain_line(#[trigger] without_skipped(ls)[i]),
    decreases ls.len(),
{
    if ls.len() > 0 {
        let rest = ls.drop_first();
        assert forall|i: int| 0 <= i < rest.len() implies is_plain_line(#[trigger] rest[i]) by {
            assert(rest[i] == ls[i + 1]);
        }
        lemma_without_skipped_plain(rest);
        if is_skipped(ls[0]) {
            assert(without_skipped(ls) == without_skipped(rest));
        } else {
            let w = without_skipped(ls);
            assert forall|i: int| 0 <= i < w.len() implies is_plain_line(#[trigger] w[i]) by {
                if i > 0 {
                    assert(w[i] == without_skipped(rest)[i - 1]);
                } else {
                    assert(is_plain_line(ls[0]));
                }
            }
        }
    }
}

proof fn lemma_parse_lines_without_skipped(ls: Seq<Seq<char>>)
    ensures
        parse_lines(without_skipped(ls)) == parse_lines(ls),
    decreases ls.len(),
{
    if ls.len() > 0 {
        lemma_parse_lines_without_skipped(ls.drop_first());
        if !is_skipped(ls[0]) {
            let w = without_skipped(ls);
            assert(w.drop_first() =~= without_skipped(ls.drop_first()));
        }
    }
}

proof fn lemma_config_lines_without_skipped(ls: Seq<Seq<char>>, c: ConfigModel)
    ensures
        parse_config_lines(without_skipped(ls), c) == parse_config_lines(ls, c),
    decreases ls.len(),
{
    if ls.len() > 0 {
        if !is_skipped(ls[0]) {
            let w = without_skipped(ls);
            assert(w.drop_first() =~= without_skipped(ls.drop_first()));
            match config_step(c, ls[0]) {
                Ok(next) => lemma_config_lines_without_skipped(ls.drop_first(), next),
                Err(_) => {},
            }
        } else {
            lemma_config_lines_without_skipped(ls.drop_first(), c);
        }
    }
}

/// Comments and blank lines change nothing: a text of plain lines parses,
/// as an entry and as loader settings, as the same text with its blank and
/// `#` lines taken out.
pub proof fn lemma_skipped_lines_ignored(ls: Seq<Seq<char>>)
    requires
        forall|i: int| 0 <= i < ls.len() ==> is_plain_line(#[trigger] ls[i]),
    ensures
        parse_entry(join_lines(ls)) == parse_entry(join_lines(without_skipped(ls))),
        parse_config(join_lines(ls)) == parse_config(join_lines(without_skipped(ls))),
{
    lemma_without_skipped_plain(ls);
    lemma_lines_of_join(ls);
    lemma_lines_of_join(without_skipped(ls));
    lemma_parse_lines_without_skipped(ls);
    lemma_config_lines_without_skipped(ls, ConfigModel { default: None, timeout: None });
}

/// An entry line with an unknown keyword fails the whole entry with that
/// keyword, whatever follows; in the loader settings the same line is
/// ignored.
pub proof fn lemma_unknown_key(
    key: Seq<char>,
    value: Seq<char>,
    rest: Seq<Seq<char>>,
    c: ConfigModel,
)
    requires
        key.len() > 0,
        key[0] != '#',
        !contains(key, ' '),
        keyword_of(key) is None,
        key != "default"@,
        key != "timeout"@,
    ensures
        parse_lines(seq![key + " "@ + value] + rest) == Err::<Seq<TokenModel>, ErrorModel>(
            ErrorModel::InvalidToken(key),
        ),
        parse_config_lines(seq![key + " "@ + value] + rest, c) == parse_config_lines(rest, c),
{
    let line = key + " "@ + value;
    let ls = seq![line] + rest;
    lemma_split_key_value(key, value);
    assert(line[0] == key[0]);
    assert(ls[0] == line);
    assert(ls.drop_first() =~= rest);
}

/// A `timeout` value that denotes no `u32` sets the timeout to 0.
pub proof fn lemma_malformed_timeout(value: Seq<char>, c: ConfigModel)
    requires
        parse_u32(value) is None,
    ensures
        config_step(c, "timeout "@ + value) == Ok::<ConfigModel, ErrorModel>(
            ConfigModel { default: c.default, timeout: Some(0) },
        ),
{
    lemma_setting_keys();
    reveal_strlit("timeout ");
    assert("timeout "@ + value == "timeout"@ + " "@ + value);
    lemma_split_key_value("timeout"@, value);
    assert(("timeout "@ + value)[0] == 't');
}

/// Setting an entry as the default gives the same `default` line whether or
/// not the identifier already ends in `.conf`: the name with one `.conf`.
pub proof fn lemma_default_name(id: Seq<char>)
    requires
        !ends_with(id, ".conf"@),
    ensures
        default_name(id) == id + ".conf"@,
        default_name(id + ".conf"@) == id + ".conf"@,
        render_config(ConfigModel { default: Some(default_name(id)), timeout: None })
            == "default "@ + id + ".conf"@ + "\n"@,
{
    let n = id + ".conf"@;
    assert(n.subrange(n.len() - ".conf"@.len(), n.len() as int) =~= ".conf"@);
    assert(render_config(ConfigModel { default: Some(default_name(id)), timeout: None })
        =~= "default "@ + id + ".conf"@ + "\n"@);
}

proof fn lemma_file_name_no_slash(p: Seq<char>)
    ensures
        !contains(file_name(p), '/'),
    decreases p.len(),
{
    if p.len() > 0 && p.last() != '/' {
        lemma_file_name_no_slash(p.drop_last());
        let f = file_name(p.drop_last());
        assert forall|i: int| 0 <= i < f.push(p.last()).len() implies f.push(p.last())[i]
            != '/' by {
            if i < f.len() {
                assert(f.push(p.last())[i] == f[i]);
            }
        }
    }
}

proof fn lemma_file_name_join(dir: Seq<char>, name: Seq<char>)
    requires
        name.len() > 0,
        !contains(name, '/'),
    ensures
        file_name(crate::text::join_path(dir, name)) == name,
{
    reveal_strlit("/");
    let j = crate::text::join_path(dir, name);
    let k = j.len() - name.len();
    assert(j.subrange(k, j.len() as int) =~= name);
    assert forall|i: int| k <= i < j.len() implies j[i] != '/' by {
        assert(j[i] == name[i - k]);
    }
    if k > 0 {
        assert(j[k - 1] == '/');
    }
    crate::text::lemma_file_name_at(j, k);
}

/// Loading then writing gives back a canonical file: an entry file whose
/// text is that of valid tokens is written back, under any working
/// directory, with the same file name and the same text; loader settings
/// whose text is that of valid settings are written back with the same text.
pub proof fn lemma_reload_rewrites_same(
    path: Seq<char>,
    ts: Seq<TokenModel>,
    new_dir: Seq<char>,
    c: ConfigModel,
)
    requires
        entry_id_of_path(path) is Some,
        forall|i: int| 0 <= i < ts.len() ==> is_valid_token(#[trigger] ts[i]),
        is_valid_config(c),
    ensures
        parse_entry(render_tokens(ts)) == Ok::<Seq<TokenModel>, ErrorModel>(ts),
        file_name(entry_path(new_dir, entry_id_of_path(path)->0)) == file_name(path),
        parse_config(render_config(c)) == Ok::<ConfigModel, ErrorModel>(c),
        file_name(loader_path(new_dir)) == "loader.conf"@,
{
    reveal_strlit(".conf");
    reveal_strlit("loader.conf");
    lemma_entry_round_trip(ts);
    lemma_config_round_trip(c);
    let f = file_name(path);
    let id = entry_id_of_path(path)->0;
    lemma_file_name_no_slash(path);
    assert(id + ".conf"@ =~= f);
    lemma_file_name_join(entries_dir(new_dir), f);
    assert(!contains("loader.conf"@, '/'));
    lemma_file_name_join(new_dir, "loader.conf"@);
}

} // verus!
