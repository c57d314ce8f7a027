//! System proxy planning and parsing: the commands that set or clear the
//! proxy on macOS and Linux, the shell environment file, and the parsers that
//! read the current state back from command output. Running the commands is
//! left to the caller.

use crate::error::{invalid, AppError};
use crate::models::{SystemProxyStatus, SystemProxyTarget};
use crate::text::{
    chars_of_strings, concat, push_chars, push_str, dec, dec_u64, eq_ignore_ascii_case, eq_ignore_case, lines, lines_of,
    parse_u16, parse_unsigned, replace_str, rsplit_once, rsplit_once_char, starts_with, strip_prefix,
    strip_prefix_of, u64_string, eq_str, from_chars, join, join_with, replace, replace_seq, split_by,
    split_chars, string_views, str_views, strings_of, strings_of_strs, to_chars, to_owned_string,
    trim, trim_by, trim_class, trim_end_by, trim_end_class, trim_nonempty_all, trim_start_by,
    trim_start_class, trim_ws, trimmed_nonempty, views, CharClass, all_digits, is_digit,
    lemma_dec_digits, lemma_last_index, law_decimal_roundtrip, strip_cr, is_ws,
};
use vstd::prelude::*;

verus! {

/// A program and its arguments.
#[derive(Debug, Clone, PartialEq, Eq)]
pub struct CommandSpec {
    pub program: String,
    pub args: Vec<String>,
}

/// A command as text: the program and the arguments.
pub type CommandView = (Seq<char>, Seq<Seq<char>>);

impl View for CommandSpec {
    type V = CommandView;

    open spec fn view(&self) -> CommandView {
        (self.program@, string_views(self.args@))
    }
}

/// The views of a list of commands.
pub open spec fn command_views(v: Seq<CommandSpec>) -> Seq<CommandView> {
    Seq::new(v.len(), |i: int| v[i]@)
}

impl CommandSpec {
    /// A command from a program name and its arguments.
    pub fn new(program: &str, args: &[&str]) -> (r: CommandSpec)
        ensures
            r@ == (program@, str_views(args@)),
    {
        CommandSpec { program: to_owned_string(program), args: strings_of_strs(args) }
    }

    /// A command from a program name and owned arguments.
    pub fn with_args(program: &str, args: Vec<String>) -> (r: CommandSpec)
        ensures
            r@ == (program@, string_views(args@)),
    {
        CommandSpec { program: to_owned_string(program), args }
    }
}

/// Checks a proxy target: the host must not be blank and the port not zero.
pub fn validate_target(target: &SystemProxyTarget) -> (r: Result<(), AppError>)
    ensures
        r is Ok <==> (trim(target.proxy_host@).len() > 0 && target.proxy_port != 0),
        r matches Err(AppError::InvalidInput(m)) ==> (if trim(target.proxy_host@).len() == 0 {
            m@ == "系统代理主机不能为空"@
        } else {
            m@ == "系统代理端口必须在 1 到 65535 之间"@
        }),
        r is Err ==> r matches Err(AppError::InvalidInput(_)),
{
    let host = to_chars(target.proxy_host.as_str());
    let trimmed = trim_ws(host.as_slice());
    if trimmed.len() == 0 {
        return Err(invalid("系统代理主机不能为空"));
    }
    if target.proxy_port == 0 {
        return Err(invalid("系统代理端口必须在 1 到 65535 之间"));
    }
    Ok(())
}

// ---------------------------------------------------------------------------
// Bypass lists
// ---------------------------------------------------------------------------

/// The characters that separate bypass entries.
pub open spec fn bypass_separators() -> Seq<char> {
    seq![';', ',', '\n', '\r']
}

/// The entries of a bypass list: split at `;`, `,`, `\n` and `\r`, trimmed,
/// empty entries dropped.
pub open spec fn bypass_list(s: Seq<char>) -> Seq<Seq<char>> {
    trimmed_nonempty(split_by(s, bypass_separators()))
}

fn bypass_chars(bypass: &str) -> (r: Vec<Vec<char>>)
    ensures
        views(r@) == bypass_list(bypass@),
{
    let seps = [';', ',', '\n', '\r'];
    assert(seps@ =~= bypass_separators());
    let v = to_chars(bypass);
    let parts = split_chars(v.as_slice(), seps.as_slice());
    trim_nonempty_all(&parts)
}

/// The entries of a bypass list.
pub fn bypass_entries(bypass: &str) -> (r: Vec<String>)
    ensures
        string_views(r@) == bypass_list(bypass@),
{
    let parts = bypass_chars(bypass);
    strings_of(&parts)
}

// ---------------------------------------------------------------------------
// GNOME settings values
// ---------------------------------------------------------------------------

/// A GVariant string literal: single quotes, with `\` and `'` escaped.
pub open spec fn gsettings_quote(v: Seq<char>) -> Seq<char> {
    seq!['\''] + replace(replace(v, seq!['\\'], seq!['\\', '\\']), seq!['\''], seq!['\\', '\''])
        + seq!['\'']
}

/// Each value quoted.
pub open spec fn gsettings_quote_all(vs: Seq<Seq<char>>) -> Seq<Seq<char>>
    decreases vs.len(),
{
    if vs.len() == 0 {
        Seq::empty()
    } else {
        gsettings_quote_all(vs.drop_last()).push(gsettings_quote(vs.last()))
    }
}

/// A GVariant string array: `[` quoted values joined by `, ` `]`.
pub open spec fn gsettings_array(vs: Seq<Seq<char>>) -> Seq<char> {
    seq!['['] + join(gsettings_quote_all(vs), seq![',', ' ']) + seq![']']
}

fn quote_chars(v: &[char]) -> (r: Vec<char>)
    ensures
        r@ == gsettings_quote(v@),
{
    let bs = ['\\'];
    let bs2 = ['\\', '\\'];
    let q = ['\''];
    let bq = ['\\', '\''];
    let a = replace_seq(v, bs.as_slice(), bs2.as_slice());
    let b = replace_seq(a.as_slice(), q.as_slice(), bq.as_slice());
    let c = concat(q.as_slice(), b.as_slice());
    let d = concat(c.as_slice(), q.as_slice());
    assert(bs@ =~= seq!['\\']);
    assert(bs2@ =~= seq!['\\', '\\']);
    assert(q@ =~= seq!['\'']);
    assert(bq@ =~= seq!['\\', '\'']);
    d
}

/// A value as a GVariant string literal.
pub fn quoted_gsettings_string(value: &str) -> (r: String)
    ensures
        r@ == gsettings_quote(value@),
{
    let v = to_chars(value);
    let q = quote_chars(v.as_slice());
    from_chars(q.as_slice())
}

fn gsettings_array_chars(values: &Vec<Vec<char>>) -> (r: Vec<char>)
    ensures
        r@ == gsettings_array(views(values@)),
{
    let mut quoted: Vec<Vec<char>> = Vec::new();
    let mut i: usize = 0;
    while i < values.len()
        invariant
            i <= values@.len(),
            views(quoted@) == gsettings_quote_all(views(values@).take(i as int)),
        decreases values.len() - i,
    {
        proof {
            assert(views(values@).take(i + 1).drop_last() =~= views(values@).take(i as int));
        }
        let ghost old_q = views(quoted@);
        quoted.push(quote_chars(values[i].as_slice()));
        assert(views(quoted@) =~= old_q.push(gsettings_quote(values@[i as int]@)));
        i = i + 1;
    }
    assert(views(values@).take(values@.len() as int) =~= views(values@));
    let sep = [',', ' '];
    assert(sep@ =~= seq![',', ' ']);
    let joined = join_with(&quoted, sep.as_slice());
    let open = ['['];
    let close = [']'];
    let a = concat(open.as_slice(), joined.as_slice());
    let r = concat(a.as_slice(), close.as_slice());
    assert(r@ =~= gsettings_array(views(values@)));
    r
}

/// Values as a GVariant string array.
pub fn gsettings_string_array(values: &Vec<String>) -> (r: String)
    ensures
        r@ == gsettings_array(string_views(values@)),
{
    let cs = chars_of_strings(values);
    let r = gsettings_array_chars(&cs);
    from_chars(r.as_slice())
}

/// The text of a GVariant string literal: trimmed, surrounding quotes
/// removed, `\'` and `\\` unescaped.
pub open spec fn gsettings_unquote(raw: Seq<char>) -> Seq<char> {
    replace(
        replace(trim_by(trim(raw), CharClass::Exactly('\'')), seq!['\\', '\''], seq!['\'']),
        seq!['\\', '\\'],
        seq!['\\'],
    )
}

fn unquote_chars(raw: &[char]) -> (r: Vec<char>)
    ensures
        r@ == gsettings_unquote(raw@),
{
    let t = trim_ws(raw);
    let u = trim_class(t.as_slice(), &CharClass::Exactly('\''));
    let bq = ['\\', '\''];
    let q = ['\''];
    let bs2 = ['\\', '\\'];
    let bs = ['\\'];
    assert(bs@ =~= seq!['\\']);
    assert(bs2@ =~= seq!['\\', '\\']);
    assert(q@ =~= seq!['\'']);
    assert(bq@ =~= seq!['\\', '\'']);
    let a = replace_seq(u.as_slice(), bq.as_slice(), q.as_slice());
    replace_seq(a.as_slice(), bs2.as_slice(), bs.as_slice())
}

/// Reads a GVariant string literal.
pub fn parse_gsettings_string(raw: &str) -> (r: String)
    ensures
        r@ == gsettings_unquote(raw@),
{
    let v = to_chars(raw);
    let u = unquote_chars(v.as_slice());
    from_chars(u.as_slice())
}

// ---------------------------------------------------------------------------
// Quoting and unquoting agree
// ---------------------------------------------------------------------------

/// Each `\` doubled.
pub open spec fn doubled_backslashes(v: Seq<char>) -> Seq<char>
    decreases v.len(),
{
    if v.len() == 0 {
        Seq::empty()
    } else {
        (if v[0] == '\\' {
            seq!['\\', '\\']
        } else {
            seq![v[0]]
        }) + doubled_backslashes(v.drop_first())
    }
}

/// Each `\` and `'` preceded by a `\`.
pub open spec fn escaped(v: Seq<char>) -> Seq<char>
    decreases v.len(),
{
    if v.len() == 0 {
        Seq::empty()
    } else {
        (if v[0] == '\\' {
            seq!['\\', '\\']
        } else if v[0] == '\'' {
            seq!['\\', '\'']
        } else {
            seq![v[0]]
        }) + escaped(v.drop_first())
    }
}

proof fn lemma_replace_single(x: char, from: char, to: Seq<char>)
    ensures
        replace(seq![x], seq![from], to) == (if x == from {
            to
        } else {
            seq![x]
        }),
{
    let s = seq![x];
    let f = seq![from];
    if x == from {
        assert(f.is_prefix_of(s)) by {
            assert(s.subrange(0, 1) =~= f);
        }
        assert(s.skip(1) =~= Seq::<char>::empty());
        assert(replace(Seq::<char>::empty(), f, to) == Seq::<char>::empty());
        assert(to + Seq::<char>::empty() =~= to);
    } else {
        lemma_differs_at(f, s, 0);
        assert(s.drop_first() =~= Seq::<char>::empty());
        assert(replace(Seq::<char>::empty(), f, to) == Seq::<char>::empty());
        assert(seq![x] + Seq::<char>::empty() =~= seq![x]);
    }
}

/// The two replacements of quoting escape each character in turn.
proof fn lemma_quote_escapes(v: Seq<char>)
    ensures
        replace(replace(v, seq!['\\'], seq!['\\', '\\']), seq!['\''], seq!['\\', '\'']) == escaped(v),
    decreases v.len(),
{
    let bs = seq!['\\'];
    let q = seq!['\''];
    if v.len() == 0 {
    } else {
        let rest = v.drop_first();
        assert(v =~= seq![v[0]] + rest);
        lemma_replace_concat(seq![v[0]], rest, '\\', seq!['\\', '\\']);
        lemma_replace_single(v[0], '\\', seq!['\\', '\\']);
        let head = replace(seq![v[0]], bs, seq!['\\', '\\']);
        lemma_replace_concat(head, replace(rest, bs, seq!['\\', '\\']), '\'', seq!['\\', '\'']);
        if v[0] == '\\' {
            assert(!head.contains('\'')) by {
                assert(head =~= seq!['\\', '\\']);
            }
            lemma_replace_free(head, '\'', seq!['\\', '\'']);
        } else {
            lemma_replace_single(v[0], '\'', seq!['\\', '\'']);
        }
        lemma_quote_escapes(rest);
    }
}

/// What escaping begins and ends with.
proof fn lemma_escaped_ends(v: Seq<char>)
    ensures
        escaped(v).len() == 0 <==> v.len() == 0,
        escaped(v).len() > 0 ==> escaped(v)[0] != '\'',
        v.len() > 0 ==> escaped(v).last() == v.last(),
    decreases v.len(),
{
    if v.len() > 0 {
        let rest = v.drop_first();
        lemma_escaped_ends(rest);
        if rest.len() > 0 {
            assert(rest.last() == v.last());
        }
    }
}

/// An escaped backslash is passed over when unescaping quotes.
proof fn lemma_unescape_past_backslash(e: Seq<char>)
    requires
        e.len() > 0 ==> e[0] != '\'',
    ensures
        replace(seq!['\\', '\\'] + e, seq!['\\', '\''], seq!['\'']) == seq!['\\', '\\'] + replace(
            e,
            seq!['\\', '\''],
            seq!['\''],
        ),
{
    let from = seq!['\\', '\''];
    let to = seq!['\''];
    let s = seq!['\\', '\\'] + e;
    lemma_differs_at(from, s, 1);
    let t = seq!['\\'] + e;
    assert(s.drop_first() =~= t);
    if e.len() > 0 {
        lemma_differs_at(from, t, 1);
    }
    assert(t.drop_first() =~= e);
    assert(replace(t, from, to) == seq!['\\'] + replace(e, from, to));
    assert(replace(s, from, to) == seq!['\\'] + replace(t, from, to));
    assert(seq!['\\'] + (seq!['\\'] + replace(e, from, to)) =~= seq!['\\', '\\'] + replace(e, from, to));
}

/// Unescaping `\'` gives back the text with its backslashes doubled.
proof fn lemma_unescape_quotes(v: Seq<char>)
    ensures
        replace(escaped(v), seq!['\\', '\''], seq!['\'']) == doubled_backslashes(v),
    decreases v.len(),
{
    let from = seq!['\\', '\''];
    let to = seq!['\''];
    if v.len() > 0 {
        let rest = v.drop_first();
        let e = escaped(rest);
        lemma_unescape_quotes(rest);
        lemma_escaped_ends(rest);
        if v[0] == '\\' {
            assert(escaped(v) == seq!['\\', '\\'] + e);
            lemma_unescape_past_backslash(e);
        } else if v[0] == '\'' {
            let s = seq!['\\', '\''] + e;
            assert(escaped(v) == s);
            assert(from.is_prefix_of(s)) by {
                assert(s.subrange(0, 2) =~= from);
            }
            assert(s.skip(2) =~= e);
            assert(replace(s, from, to) == to + replace(e, from, to));
        } else {
            let s = seq![v[0]] + e;
            assert(escaped(v) == s);
            lemma_differs_at(from, s, 0);
            assert(s.drop_first() =~= e);
            assert(replace(s, from, to) == seq![v[0]] + replace(e, from, to));
        }
    }
}

/// Halving doubled backslashes gives back the text.
proof fn lemma_halve_backslashes(v: Seq<char>)
    ensures
        replace(doubled_backslashes(v), seq!['\\', '\\'], seq!['\\']) == v,
    decreases v.len(),
{
    let from = seq!['\\', '\\'];
    let to = seq!['\\'];
    if v.len() > 0 {
        let rest = v.drop_first();
        let d = doubled_backslashes(rest);
        lemma_halve_backslashes(rest);
        if v[0] == '\\' {
            let s = seq!['\\', '\\'] + d;
            assert(from.is_prefix_of(s)) by {
                assert(s.subrange(0, 2) =~= from);
            }
            assert(s.skip(2) =~= d);
        } else {
            let s = seq![v[0]] + d;
            lemma_differs_at(from, s, 0);
            assert(s.drop_first() =~= d);
        }
        assert(v =~= seq![v[0]] + rest);
    }
}

/// Reading back a quoted value gives the value, unless it ends with a
/// quote (the outer quotes are stripped greedily).
pub proof fn law_gsettings_quote_roundtrip(v: Seq<char>)
    requires
        v.len() == 0 || v.last() != '\'',
    ensures
        gsettings_unquote(gsettings_quote(v)) == v,
{
    let e = escaped(v);
    let q = seq!['\''];
    lemma_quote_escapes(v);
    lemma_escaped_ends(v);
    let s = q + e + q;
    assert(gsettings_quote(v) == s);
    assert(!is_ws('\''));
    assert(trim_start_by(s, CharClass::Whitespace) == s);
    assert(s.last() == '\'');
    assert(trim_end_by(s, CharClass::Whitespace) == s);
    assert(trim(s) == s);
    assert(s.drop_first() =~= e + q);
    let cls = CharClass::Exactly('\'');
    assert(trim_start_by(s, cls) == trim_start_by(e + q, cls));
    if e.len() > 0 {
        assert((e + q)[0] == e[0]);
        assert(trim_start_by(e + q, cls) == e + q);
        assert((e + q).drop_last() =~= e);
        assert(trim_end_by(e, cls) == e);
        assert(trim_end_by(e + q, cls) == e);
    } else {
        assert(e + q =~= q);
        assert(q.drop_first() =~= e);
        assert(trim_start_by(e, cls) == e);
        assert(trim_start_by(q, cls) == e);
        assert(trim_end_by(e, cls) == e);
    }
    assert(trim_by(s, cls) == e);
    assert(trim_by(trim(s), cls) == e);
    lemma_unescape_quotes(v);
    lemma_halve_backslashes(v);
}

/// Each element read as a string literal and trimmed; empty ones dropped.
pub open spec fn unquoted_nonempty(parts: Seq<Seq<char>>) -> Seq<Seq<char>>
    decreases parts.len(),
{
    if parts.len() == 0 {
        Seq::empty()
    } else {
        let rest = unquoted_nonempty(parts.drop_last());
        let t = trim(gsettings_unquote(parts.last()));
        if t.len() > 0 {
            rest.push(t)
        } else {
            rest
        }
    }
}

/// The elements of a GVariant string array: brackets removed, split at `,`,
/// each element unquoted and trimmed, empty ones dropped.
pub open spec fn gsettings_array_items(raw: Seq<char>) -> Seq<Seq<char>> {
    let inner = trim_end_by(
        trim_start_by(trim(raw), CharClass::Exactly('[')),
        CharClass::Exactly(']'),
    );
    if trim(inner).len() == 0 {
        Seq::empty()
    } else {
        unquoted_nonempty(split_by(inner, seq![',']))
    }
}

/// Reads a GVariant string array.
pub fn parse_gsettings_string_array(raw: &str) -> (r: Vec<String>)
    ensures
        string_views(r@) == gsettings_array_items(raw@),
{
    let v = to_chars(raw);
    let t = trim_ws(v.as_slice());
    let a = trim_start_class(t.as_slice(), &CharClass::Exactly('['));
    let inner = trim_end_class(a.as_slice(), &CharClass::Exactly(']'));
    let ti = trim_ws(inner.as_slice());
    if ti.len() == 0 {
        let r: Vec<String> = Vec::new();
        assert(string_views(r@) =~= Seq::<Seq<char>>::empty());
        return r;
    }
    let comma = [','];
    assert(comma@ =~= seq![',']);
    let parts = split_chars(inner.as_slice(), comma.as_slice());
    let mut out: Vec<Vec<char>> = Vec::new();
    let mut i: usize = 0;
    while i < parts.len()
        invariant
            i <= parts@.len(),
            views(out@) == unquoted_nonempty(views(parts@).take(i as int)),
        decreases parts.len() - i,
    {
        proof {
            assert(views(parts@).take(i + 1).drop_last() =~= views(parts@).take(i as int));
        }
        let u = unquote_chars(parts[i].as_slice());
        let t2 = trim_ws(u.as_slice());
        if t2.len() > 0 {
            let ghost old_o = views(out@);
            out.push(t2);
            assert(views(out@) =~= old_o.push(t2@));
        }
        i = i + 1;
    }
    assert(views(parts@).take(parts@.len() as int) =~= views(parts@));
    strings_of(&out)
}

// ---------------------------------------------------------------------------
// Arrays read back as written
// ---------------------------------------------------------------------------

/// The pieces a joined list splits into at `,`: the first as it is, the
/// others after the space that followed the comma.
pub open spec fn spaced(parts: Seq<Seq<char>>) -> Seq<Seq<char>> {
    Seq::new(parts.len(), |i: int| if i == 0 { parts[0] } else { seq![' '] + parts[i] })
}

/// An entry that an array is written and read back with: not empty,
/// already trimmed, without `,`, and not ending with a quote.
pub open spec fn array_safe(e: Seq<char>) -> bool {
    &&& e.len() > 0
    &&& trim(e) == e
    &&& !e.contains(',')
    &&& e.last() != '\''
}

proof fn lemma_escaped_free(v: Seq<char>, c: char)
    requires
        !v.contains(c),
        c != '\\',
        c != '\'',
    ensures
        !escaped(v).contains(c),
    decreases v.len(),
{
    if v.len() > 0 {
        let rest = v.drop_first();
        assert(!rest.contains(c)) by {
            if rest.contains(c) {
                let k = choose|k: int| 0 <= k < rest.len() && rest[k] == c;
                assert(v[k + 1] == c);
            }
        }
        lemma_escaped_free(rest, c);
        let head = if v[0] == '\\' {
            seq!['\\', '\\']
        } else if v[0] == '\'' {
            seq!['\\', '\'']
        } else {
            seq![v[0]]
        };
        assert(v[0] != c);
        assert(!head.contains(c)) by {
            if head.contains(c) {
                let k = choose|k: int| 0 <= k < head.len() && head[k] == c;
            }
        }
        lemma_concat_free(head, escaped(rest), c);
    }
}

/// A quoted value is the escaped value between quotes.
proof fn lemma_quote_shape(v: Seq<char>)
    ensures
        gsettings_quote(v) == seq!['\''] + escaped(v) + seq!['\''],
        gsettings_quote(v).len() >= 2,
        gsettings_quote(v)[0] == '\'',
        gsettings_quote(v).last() == '\'',
        !v.contains(',') ==> !gsettings_quote(v).contains(','),
{
    lemma_quote_escapes(v);
    let q = seq!['\''];
    if !v.contains(',') {
        lemma_escaped_free(v, ',');
        assert(!q.contains(',')) by {
            if q.contains(',') {
                assert(q[0] == '\'');
            }
        }
        lemma_concat_free(q, escaped(v), ',');
        lemma_concat_free(q + escaped(v), q, ',');
    }
}

/// A list joined by `, ` and split at `,` gives its parts back, the later
/// ones after a space.
proof fn lemma_split_joined(parts: Seq<Seq<char>>)
    requires
        parts.len() >= 1,
        forall|i: int| 0 <= i < parts.len() ==> !(#[trigger] parts[i]).contains(','),
    ensures
        split_by(join(parts, seq![',', ' ']), seq![',']) == spaced(parts),
    decreases parts.len(),
{
    let sep = seq![','];
    if parts.len() == 1 {
        let p = parts[0];
        assert forall|i: int| 0 <= i < p.len() implies !sep.contains(#[trigger] p[i]) by {
            if sep.contains(p[i]) {
                assert(p.contains(','));
            }
        }
        crate::text::lemma_split_without_separator(p, sep);
        assert(spaced(parts) =~= seq![p]);
    } else {
        let init = parts.drop_last();
        let last = parts.last();
        assert forall|i: int| 0 <= i < init.len() implies !(#[trigger] init[i]).contains(',') by {
            assert(init[i] == parts[i]);
        }
        lemma_split_joined(init);
        let tail = seq![' '] + last;
        assert(!last.contains(','));
        assert forall|i: int| 0 <= i < tail.len() implies !sep.contains(#[trigger] tail[i]) by {
            if sep.contains(tail[i]) {
                if i > 0 {
                    assert(last[i - 1] == ',');
                }
            }
        }
        crate::text::lemma_split_without_separator(tail, sep);
        let j = join(init, seq![',', ' ']);
        assert(join(parts, seq![',', ' ']) =~= j + seq![','] + tail);
        crate::text::lemma_split_concat(j, ',', tail);
        assert(spaced(parts) =~= spaced(init) + seq![tail]);
    }
}

/// A quoted entry reads back as the entry, with or without a space before
/// it.
proof fn lemma_unquote_entry(e: Seq<char>)
    requires
        array_safe(e),
    ensures
        gsettings_unquote(gsettings_quote(e)) == e,
        gsettings_unquote(seq![' '] + gsettings_quote(e)) == e,
{
    let q = gsettings_quote(e);
    lemma_quote_shape(e);
    law_gsettings_quote_roundtrip(e);
    let ws = CharClass::Whitespace;
    assert(!is_ws('\''));
    crate::text::lemma_trim_fixed(q, ws);
    let sq = seq![' '] + q;
    assert(is_ws(' '));
    assert(sq.drop_first() =~= q);
    assert(trim_start_by(sq, ws) == trim_start_by(q, ws));
    assert(trim_start_by(q, ws) == q);
    assert(trim(sq) == trim(q));
}

/// The entries of a written array read back one by one.
proof fn lemma_unquoted_entries(es: Seq<Seq<char>>)
    requires
        es.len() >= 1,
        forall|i: int| 0 <= i < es.len() ==> array_safe(#[trigger] es[i]),
    ensures
        unquoted_nonempty(spaced(gsettings_quote_all(es))) == es,
    decreases es.len(),
{
    let qs = gsettings_quote_all(es);
    let pieces = spaced(qs);
    let last = es.last();
    assert(array_safe(es[es.len() - 1]));
    lemma_unquote_entry(last);
    lemma_quote_all_len(es);
    assert(qs.last() == gsettings_quote(last));
    assert(trim(last) == last);
    assert(pieces.len() == es.len());
    if es.len() == 1 {
        assert(pieces.last() == gsettings_quote(last));
        assert(trim(gsettings_unquote(pieces.last())) == last);
        assert(pieces.drop_last() =~= Seq::<Seq<char>>::empty());
        assert(unquoted_nonempty(pieces.drop_last()) == Seq::<Seq<char>>::empty());
        assert(unquoted_nonempty(pieces) == Seq::<Seq<char>>::empty().push(last));
        assert(es =~= seq![last]);
        assert(Seq::<Seq<char>>::empty().push(last) =~= seq![last]);
    } else {
        let init = es.drop_last();
        assert forall|i: int| 0 <= i < init.len() implies array_safe(#[trigger] init[i]) by {
            assert(init[i] == es[i]);
        }
        lemma_unquoted_entries(init);
        assert(qs.drop_last() == gsettings_quote_all(init));
        assert(pieces.drop_last() =~= spaced(gsettings_quote_all(init)));
        assert(pieces.last() == seq![' '] + gsettings_quote(last));
        assert(trim(gsettings_unquote(pieces.last())) == last);
        assert(unquoted_nonempty(pieces) == unquoted_nonempty(pieces.drop_last()).push(last));
        assert(init.push(last) =~= es);
    }
}

proof fn lemma_quote_all_len(vs: Seq<Seq<char>>)
    ensures
        gsettings_quote_all(vs).len() == vs.len(),
        forall|i: int| 0 <= i < vs.len() ==> #[trigger] gsettings_quote_all(vs)[i] == gsettings_quote(vs[i]),
    decreases vs.len(),
{
    if vs.len() > 0 {
        lemma_quote_all_len(vs.drop_last());
        assert forall|i: int| 0 <= i < vs.len() implies #[trigger] gsettings_quote_all(vs)[i] == gsettings_quote(vs[i]) by {
            if i < vs.len() - 1 {
                assert(vs.drop_last()[i] == vs[i]);
            }
        }
    }
}

/// A joined list begins with its first part and ends with its last.
proof fn lemma_join_ends(parts: Seq<Seq<char>>, sep: Seq<char>)
    requires
        parts.len() >= 1,
        parts[0].len() > 0,
        parts.last().len() > 0,
    ensures
        join(parts, sep).len() > 0,
        join(parts, sep)[0] == parts[0][0],
        join(parts, sep).last() == parts.last().last(),
    decreases parts.len(),
{
    if parts.len() > 1 {
        let init = parts.drop_last();
        if init.len() == 1 {
            assert(join(init, sep) == parts[0]);
        } else {
            assert(init[0] == parts[0]);
            assert(init.last() == parts[parts.len() - 2]);
            lemma_join_ends_first(init, sep);
        }
    }
}

/// A joined list of at least one part, the first not empty, begins with
/// that part's first character.
proof fn lemma_join_ends_first(parts: Seq<Seq<char>>, sep: Seq<char>)
    requires
        parts.len() >= 1,
        parts[0].len() > 0,
    ensures
        join(parts, sep).len() > 0,
        join(parts, sep)[0] == parts[0][0],
    decreases parts.len(),
{
    if parts.len() > 1 {
        let init = parts.drop_last();
        assert(init[0] == parts[0]);
        lemma_join_ends_first(init, sep);
    }
}

/// Reading back an array as written gives its entries, for entries that are
/// not empty, trimmed, free of `,` and not ending with a quote.
pub proof fn law_gsettings_array_roundtrip(es: Seq<Seq<char>>)
    requires
        forall|i: int| 0 <= i < es.len() ==> array_safe(#[trigger] es[i]),
    ensures
        gsettings_array_items(gsettings_array(es)) == es,
{
    let qs = gsettings_quote_all(es);
    let j = join(qs, seq![',', ' ']);
    let a = seq!['['] + j + seq![']'];
    let ws = CharClass::Whitespace;
    assert(gsettings_array(es) == a);
    assert(!is_ws('[') && !is_ws(']'));
    assert(a[0] == '[');
    assert(a.last() == ']');
    crate::text::lemma_trim_fixed(a, ws);
    let open = CharClass::Exactly('[');
    let close = CharClass::Exactly(']');
    assert(a.drop_first() =~= j + seq![']']);
    lemma_quote_all_len(es);
    if es.len() == 0 {
        assert(j =~= Seq::<char>::empty());
        assert(j + seq![']'] =~= seq![']']);
        assert(trim_start_by(a, open) == trim_start_by(seq![']'], open));
        assert(trim_start_by(seq![']'], open) == seq![']']);
        assert(seq![']'].drop_last() =~= Seq::<char>::empty());
        assert(trim_end_by(seq![']'], close) == trim_end_by(Seq::<char>::empty(), close));
        assert(es =~= Seq::<Seq<char>>::empty());
    } else {
        assert forall|i: int| 0 <= i < qs.len() implies !(#[trigger] qs[i]).contains(',') by {
            assert(array_safe(es[i]));
            lemma_quote_shape(es[i]);
        }
        lemma_quote_shape(es[0]);
        lemma_quote_shape(es.last());
        assert(qs[0] == gsettings_quote(es[0]));
        assert(qs.last() == gsettings_quote(es[es.len() - 1]));
        lemma_join_ends(qs, seq![',', ' ']);
        assert(j[0] == '\'');
        assert(j.last() == '\'');
        assert((j + seq![']'])[0] == '\'');
        assert(trim_start_by(a, open) == trim_start_by(j + seq![']'], open));
        assert(trim_start_by(j + seq![']'], open) == j + seq![']']);
        assert((j + seq![']']).drop_last() =~= j);
        assert(trim_end_by(j + seq![']'], close) == trim_end_by(j, close));
        assert(trim_end_by(j, close) == j);
        assert(!is_ws('\''));
        crate::text::lemma_trim_fixed(j, ws);
        lemma_split_joined(qs);
        lemma_unquoted_entries(es);
    }
}

/// The entries of a trimmed list are not empty and already trimmed.
proof fn lemma_trimmed_nonempty_entries(parts: Seq<Seq<char>>)
    ensures
        forall|i: int|
            0 <= i < trimmed_nonempty(parts).len() ==> (#[trigger] trimmed_nonempty(parts)[i]).len() > 0
                && trim(trimmed_nonempty(parts)[i]) == trimmed_nonempty(parts)[i],
    decreases parts.len(),
{
    if parts.len() > 0 {
        lemma_trimmed_nonempty_entries(parts.drop_last());
        crate::text::lemma_trim_idempotent(parts.last());
        let rest = trimmed_nonempty(parts.drop_last());
        assert forall|i: int| 0 <= i < trimmed_nonempty(parts).len() implies (#[trigger] trimmed_nonempty(parts)[i]).len()
            > 0 && trim(trimmed_nonempty(parts)[i]) == trimmed_nonempty(parts)[i] by {
            if i < rest.len() {
                assert(trimmed_nonempty(parts)[i] == rest[i]);
            }
        }
    }
}

/// The GNOME ignore-hosts array written for a bypass list reads back as its
/// entries, unless an entry ends with a quote.
pub proof fn law_gsettings_bypass_roundtrip(bypass: Seq<char>)
    requires
        forall|i: int| 0 <= i < bypass_list(bypass).len() ==> (#[trigger] bypass_list(bypass)[i]).last() != '\'',
    ensures
        gsettings_array_items(gsettings_array(bypass_list(bypass))) == bypass_list(bypass),
{
    let es = bypass_list(bypass);
    lemma_trimmed_nonempty_entries(split_by(bypass, bypass_separators()));
    assert(bypass_separators().contains(','));
    lemma_bypass_entries_free(bypass, ',');
    assert forall|i: int| 0 <= i < es.len() implies array_safe(#[trigger] es[i]) by {
        assert(es[i].last() != '\'');
    }
    law_gsettings_array_roundtrip(es);
}

/// Whether a GVariant string literal holds `expected`.
pub fn parse_gsettings_bool(raw: &str, expected: &str) -> (r: bool)
    ensures
        r == (gsettings_unquote(raw@) == expected@),
{
    let v = to_chars(raw);
    let u = unquote_chars(v.as_slice());
    eq_str(u.as_slice(), expected)
}


// ---------------------------------------------------------------------------
// Linux
// ---------------------------------------------------------------------------

/// `gsettings set <schema> <key> <value>`.
pub open spec fn gsettings_set(schema: Seq<char>, key: Seq<char>, value: Seq<char>) -> CommandView {
    ("gsettings"@, seq!["set"@, schema, key, value])
}

/// The GNOME commands that switch the proxy to manual mode for a target.
pub open spec fn linux_set_plan(host: Seq<char>, port: u16, bypass: Seq<char>) -> Seq<CommandView> {
    seq![
        gsettings_set("org.gnome.system.proxy"@, "mode"@, "manual"@),
        gsettings_set("org.gnome.system.proxy.http"@, "host"@, host),
        gsettings_set("org.gnome.system.proxy.http"@, "port"@, dec(port as nat)),
        gsettings_set("org.gnome.system.proxy.https"@, "host"@, host),
        gsettings_set("org.gnome.system.proxy.https"@, "port"@, dec(port as nat)),
        gsettings_set("org.gnome.system.proxy"@, "ignore-hosts"@, gsettings_array(bypass_list(bypass))),
    ]
}

/// Pointing the GNOME proxy at a target switches it to manual mode and sets
/// both the HTTP and the HTTPS proxy to the target's host and to a port
/// that reads back as the target's port; turning it off switches the mode
/// to none and clears both.
pub proof fn law_linux_plan_sets_both_schemes(host: Seq<char>, port: u16, bypass: Seq<char>)
    ensures
        ({
            let plan = linux_set_plan(host, port, bypass);
            &&& plan.contains(("gsettings"@, seq!["set"@, "org.gnome.system.proxy"@, "mode"@, "manual"@]))
            &&& plan.contains(("gsettings"@, seq!["set"@, "org.gnome.system.proxy.http"@, "host"@, host]))
            &&& plan.contains(("gsettings"@, seq!["set"@, "org.gnome.system.proxy.https"@, "host"@, host]))
            &&& exists|i: int| 0 <= i < plan.len() && (#[trigger] plan[i]).0 == "gsettings"@ && plan[i].1.len() == 4
                && plan[i].1[0] == "set"@ && plan[i].1[1] == "org.gnome.system.proxy.http"@ && plan[i].1[2] == "port"@
                && parse_unsigned(plan[i].1[3], u16::MAX as nat) == Some(port as nat)
            &&& exists|i: int| 0 <= i < plan.len() && (#[trigger] plan[i]).0 == "gsettings"@ && plan[i].1.len() == 4
                && plan[i].1[0] == "set"@ && plan[i].1[1] == "org.gnome.system.proxy.https"@ && plan[i].1[2] == "port"@
                && parse_unsigned(plan[i].1[3], u16::MAX as nat) == Some(port as nat)
        }),
        linux_clear_plan().contains(("gsettings"@, seq!["set"@, "org.gnome.system.proxy"@, "mode"@, "none"@])),
        linux_clear_plan().contains(("gsettings"@, seq!["set"@, "org.gnome.system.proxy.https"@, "host"@, ""@])),
{
    let plan = linux_set_plan(host, port, bypass);
    crate::text::law_decimal_roundtrip(port as nat, u16::MAX as nat);
    assert(plan[0] == ("gsettings"@, seq!["set"@, "org.gnome.system.proxy"@, "mode"@, "manual"@]));
    assert(plan[1] == ("gsettings"@, seq!["set"@, "org.gnome.system.proxy.http"@, "host"@, host]));
    assert(plan[3] == ("gsettings"@, seq!["set"@, "org.gnome.system.proxy.https"@, "host"@, host]));
    assert(plan[2].1[3] == crate::text::dec(port as nat));
    assert(plan[4].1[3] == crate::text::dec(port as nat));
    let clear = linux_clear_plan();
    assert(clear[0] == ("gsettings"@, seq!["set"@, "org.gnome.system.proxy"@, "mode"@, "none"@]));
    assert(clear[3] == ("gsettings"@, seq!["set"@, "org.gnome.system.proxy.https"@, "host"@, ""@]));
}

/// The GNOME commands that turn the proxy off.
pub open spec fn linux_clear_plan() -> Seq<CommandView> {
    seq![
        gsettings_set("org.gnome.system.proxy"@, "mode"@, "none"@),
        gsettings_set("org.gnome.system.proxy.http"@, "host"@, ""@),
        gsettings_set("org.gnome.system.proxy.http"@, "port"@, "0"@),
        gsettings_set("org.gnome.system.proxy.https"@, "host"@, ""@),
        gsettings_set("org.gnome.system.proxy.https"@, "port"@, "0"@),
        gsettings_set("org.gnome.system.proxy"@, "ignore-hosts"@, "[]"@),
    ]
}

fn gsettings_cmd(schema: &str, key: &str, value: String) -> (r: CommandSpec)
    ensures
        r@ == gsettings_set(schema@, key@, value@),
{
    let mut args: Vec<String> = Vec::new();
    args.push(to_owned_string("set"));
    args.push(to_owned_string(schema));
    args.push(to_owned_string(key));
    let ghost vv = value@;
    args.push(value);
    let r = CommandSpec::with_args("gsettings", args);
    assert(r@.1 =~= seq!["set"@, schema@, key@, vv]);
    r
}

/// The commands that point the GNOME proxy at a target.
pub fn linux_set_proxy_commands(target: &SystemProxyTarget) -> (r: Vec<CommandSpec>)
    ensures
        command_views(r@) == linux_set_plan(
            target.proxy_host@,
            target.proxy_port,
            target.bypass@,
        ),
{
    let entries = bypass_chars(target.bypass.as_str());
    let ignore = from_chars(gsettings_array_chars(&entries).as_slice());
    let port = u64_string(target.proxy_port as u64);
    let mut r: Vec<CommandSpec> = Vec::new();
    r.push(gsettings_cmd("org.gnome.system.proxy", "mode", to_owned_string("manual")));
    r.push(gsettings_cmd("org.gnome.system.proxy.http", "host", target.proxy_host.clone()));
    r.push(gsettings_cmd("org.gnome.system.proxy.http", "port", port.clone()));
    r.push(gsettings_cmd("org.gnome.system.proxy.https", "host", target.proxy_host.clone()));
    r.push(gsettings_cmd("org.gnome.system.proxy.https", "port", port));
    r.push(gsettings_cmd("org.gnome.system.proxy", "ignore-hosts", ignore));
    assert(command_views(r@) =~= linux_set_plan(
        target.proxy_host@,
        target.proxy_port,
        target.bypass@,
    ));
    r
}

/// The commands that turn the GNOME proxy off.
pub fn linux_clear_proxy_commands() -> (r: Vec<CommandSpec>)
    ensures
        command_views(r@) == linux_clear_plan(),
{
    let mut r: Vec<CommandSpec> = Vec::new();
    r.push(gsettings_cmd("org.gnome.system.proxy", "mode", to_owned_string("none")));
    r.push(gsettings_cmd("org.gnome.system.proxy.http", "host", to_owned_string("")));
    r.push(gsettings_cmd("org.gnome.system.proxy.http", "port", to_owned_string("0")));
    r.push(gsettings_cmd("org.gnome.system.proxy.https", "host", to_owned_string("")));
    r.push(gsettings_cmd("org.gnome.system.proxy.https", "port", to_owned_string("0")));
    r.push(gsettings_cmd("org.gnome.system.proxy", "ignore-hosts", to_owned_string("[]")));
    assert(command_views(r@) =~= linux_clear_plan());
    r
}

/// `http://<trimmed host>:<port>`.
pub open spec fn proxy_url(host: Seq<char>, port: u16) -> Seq<char> {
    "http://"@ + trim(host) + ":"@ + dec(port as nat)
}

/// The shell environment file: the proxy URL under the upper- and
/// lower-case variable names, and the bypass entries joined by `,` as
/// `NO_PROXY`.
pub open spec fn linux_env_file(host: Seq<char>, port: u16, bypass: Seq<char>) -> Seq<char> {
    let url = proxy_url(host, port);
    let nb = join(bypass_list(bypass), ","@);
    "HTTP_PROXY="@ + url + "\n"@ + "HTTPS_PROXY="@ + url + "\n"@ + "http_proxy="@ + url + "\n"@
        + "https_proxy="@ + url + "\n"@ + "NO_PROXY="@ + nb + "\n"@ + "no_proxy="@ + nb + "\n"@
}

/// The content of the Linux shell proxy environment file.
pub fn linux_env_file_content(target: &SystemProxyTarget) -> (r: String)
    ensures
        r@ == linux_env_file(target.proxy_host@, target.proxy_port, target.bypass@),
{
    let host = to_chars(target.proxy_host.as_str());
    let th = trim_ws(host.as_slice());
    let mut url: Vec<char> = Vec::new();
    push_str(&mut url, "http://");
    push_chars(&mut url, th.as_slice());
    push_str(&mut url, ":");
    let port = dec_u64(target.proxy_port as u64);
    push_chars(&mut url, port.as_slice());
    let entries = bypass_chars(target.bypass.as_str());
    let comma = to_chars(",");
    let nb = join_with(&entries, comma.as_slice());
    let mut out: Vec<char> = Vec::new();
    push_str(&mut out, "HTTP_PROXY=");
    push_chars(&mut out, url.as_slice());
    push_str(&mut out, "\n");
    push_str(&mut out, "HTTPS_PROXY=");
    push_chars(&mut out, url.as_slice());
    push_str(&mut out, "\n");
    push_str(&mut out, "http_proxy=");
    push_chars(&mut out, url.as_slice());
    push_str(&mut out, "\n");
    push_str(&mut out, "https_proxy=");
    push_chars(&mut out, url.as_slice());
    push_str(&mut out, "\n");
    push_str(&mut out, "NO_PROXY=");
    push_chars(&mut out, nb.as_slice());
    push_str(&mut out, "\n");
    push_str(&mut out, "no_proxy=");
    push_chars(&mut out, nb.as_slice());
    push_str(&mut out, "\n");
    assert(out@ =~= linux_env_file(target.proxy_host@, target.proxy_port, target.bypass@));
    from_chars(out.as_slice())
}


// ---------------------------------------------------------------------------
// Linux environment file
// ---------------------------------------------------------------------------

/// The value after the first line that starts with `p1` or, failing that,
/// `p2` (the first line that has either prefix decides).
pub open spec fn first_line_value(ls: Seq<Seq<char>>, p1: Seq<char>, p2: Seq<char>) -> Option<Seq<char>>
    decreases ls.len(),
{
    if ls.len() == 0 {
        None
    } else {
        match strip_prefix(ls[0], p1) {
            Some(v) => Some(v),
            None => match strip_prefix(ls[0], p2) {
                Some(v) => Some(v),
                None => first_line_value(ls.drop_first(), p1, p2),
            },
        }
    }
}

fn first_line_value_of(ls: &Vec<Vec<char>>, p1: &str, p2: &str) -> (r: Option<Vec<char>>)
    ensures
        match r {
            Some(v) => first_line_value(views(ls@), p1@, p2@) == Some(v@),
            None => first_line_value(views(ls@), p1@, p2@) is None,
        },
{
    let a = to_chars(p1);
    let b = to_chars(p2);
    let mut i: usize = 0;
    assert(views(ls@).skip(0) =~= views(ls@));
    while i < ls.len()
        invariant
            i <= ls@.len(),
            a@ == p1@,
            b@ == p2@,
            first_line_value(views(ls@), p1@, p2@) == first_line_value(
                views(ls@).skip(i as int),
                p1@,
                p2@,
            ),
        decreases ls.len() - i,
    {
        let ghost t = views(ls@).skip(i as int);
        assert(t[0] == ls@[i as int]@);
        assert(t.drop_first() =~= views(ls@).skip(i + 1));
        match strip_prefix_of(ls[i].as_slice(), a.as_slice()) {
            Some(v) => {
                return Some(v);
            },
            None => {},
        }
        match strip_prefix_of(ls[i].as_slice(), b.as_slice()) {
            Some(v) => {
                return Some(v);
            },
            None => {},
        }
        i = i + 1;
    }
    None
}

/// What the environment file says: the host and port of the `http_proxy`
/// URL (scheme `http://` optional, port after the last `:`) and the
/// `no_proxy` list with `,` turned into `;`.
pub open spec fn env_proxy_fields(raw: Seq<char>) -> Option<(Seq<char>, nat, Seq<char>)> {
    let ls = lines(raw);
    match first_line_value(ls, "http_proxy="@, "HTTP_PROXY="@) {
        None => None,
        Some(url) => {
            let endpoint = match strip_prefix(url, "http://"@) {
                Some(e) => e,
                None => url,
            };
            match rsplit_once(endpoint, ':') {
                None => None,
                Some((host, port_text)) => match parse_unsigned(port_text, 65535) {
                    None => None,
                    Some(port) => {
                        let nb = match first_line_value(ls, "no_proxy="@, "NO_PROXY="@) {
                            Some(v) => v,
                            None => Seq::empty(),
                        };
                        Some((host, port, replace(nb, ","@, ";"@)))
                    },
                },
            }
        },
    }
}

/// Reads the Linux shell proxy environment file; `None` when it does not
/// name a proxy host and port.
pub fn parse_linux_env_proxy(raw: &str) -> (r: Option<SystemProxyStatus>)
    ensures
        match r {
            Some(st) => env_proxy_fields(raw@) matches Some((h, p, b)) && st.enabled
                && st.proxy_host@ == h && st.proxy_port == Some(p as u16) && st.bypass@ == b
                && st.message@ == "Linux shell 代理环境文件已配置，新登录会话生效"@,
            None => env_proxy_fields(raw@) is None,
        },
{
    let v = to_chars(raw);
    let ls = lines_of(v.as_slice());
    let url = match first_line_value_of(&ls, "http_proxy=", "HTTP_PROXY=") {
        Some(u) => u,
        None => return None,
    };
    let scheme = to_chars("http://");
    let endpoint = match strip_prefix_of(url.as_slice(), scheme.as_slice()) {
        Some(e) => e,
        None => url,
    };
    let (host, port_text) = match rsplit_once_char(endpoint.as_slice(), ':') {
        Some(pair) => pair,
        None => return None,
    };
    let port = match parse_u16(port_text.as_slice()) {
        Some(p) => p,
        None => return None,
    };
    let nb = match first_line_value_of(&ls, "no_proxy=", "NO_PROXY=") {
        Some(n) => n,
        None => Vec::new(),
    };
    proof {
        reveal_strlit(",");
    }
    let bypass = replace_str(nb.as_slice(), ",", ";");
    Some(
        SystemProxyStatus {
            enabled: true,
            proxy_host: from_chars(host.as_slice()),
            proxy_port: Some(port),
            bypass: from_chars(bypass.as_slice()),
            message: to_owned_string("Linux shell 代理环境文件已配置，新登录会话生效"),
        },
    )
}

// ---------------------------------------------------------------------------
// Reading back the environment file
// ---------------------------------------------------------------------------

/// The pieces of a split hold none of the separators.
proof fn lemma_split_free(s: Seq<char>, seps: Seq<char>, c: char)
    requires
        seps.contains(c),
    ensures
        forall|i: int| 0 <= i < split_by(s, seps).len() ==> !(#[trigger] split_by(s, seps)[i]).contains(c),
    decreases s.len(),
{
    if s.len() > 0 {
        lemma_split_free(s.drop_first(), seps, c);
        crate::text::lemma_split_nonempty(s.drop_first(), seps);
        let rest = split_by(s.drop_first(), seps);
        if !seps.contains(s[0]) {
            let first = seq![s[0]] + rest[0];
            assert forall|i: int| 0 <= i < split_by(s, seps).len() implies !(#[trigger] split_by(s, seps)[i]).contains(c) by {
                if i == 0 {
                    if first.contains(c) {
                        let k = choose|k: int| 0 <= k < first.len() && first[k] == c;
                        if k > 0 {
                            assert(rest[0][k - 1] == c);
                        }
                    }
                }
            }
        } else {
            assert forall|i: int| 0 <= i < split_by(s, seps).len() implies !(#[trigger] split_by(s, seps)[i]).contains(c) by {
                if i > 0 {
                    assert(split_by(s, seps)[i] == rest[i - 1]);
                }
            }
        }
    }
}

/// Trimming takes a piece out of the middle, so it adds no character.
proof fn lemma_trim_free(s: Seq<char>, c: char)
    requires
        !s.contains(c),
    ensures
        !trim(s).contains(c),
{
    lemma_trim_start_free(s, c);
    lemma_trim_end_free(trim_start_by(s, CharClass::Whitespace), c);
}

proof fn lemma_trim_start_free(s: Seq<char>, c: char)
    requires
        !s.contains(c),
    ensures
        !trim_start_by(s, CharClass::Whitespace).contains(c),
    decreases s.len(),
{
    if s.len() > 0 && CharClass::Whitespace.has(s[0]) {
        assert forall|k: int| 0 <= k < s.drop_first().len() implies s.drop_first()[k] != c by {
            assert(s.drop_first()[k] == s[k + 1]);
        }
        lemma_trim_start_free(s.drop_first(), c);
    }
}

proof fn lemma_trim_end_free(s: Seq<char>, c: char)
    requires
        !s.contains(c),
    ensures
        !trim_end_by(s, CharClass::Whitespace).contains(c),
    decreases s.len(),
{
    if s.len() > 0 && CharClass::Whitespace.has(s.last()) {
        assert forall|k: int| 0 <= k < s.drop_last().len() implies s.drop_last()[k] != c by {
            assert(s.drop_last()[k] == s[k]);
        }
        lemma_trim_end_free(s.drop_last(), c);
    }
}

/// Trimming and dropping empty parts keeps parts free of a character.
proof fn lemma_trimmed_nonempty_free(parts: Seq<Seq<char>>, c: char)
    requires
        forall|i: int| 0 <= i < parts.len() ==> !(#[trigger] parts[i]).contains(c),
    ensures
        forall|i: int|
            0 <= i < trimmed_nonempty(parts).len() ==> !(#[trigger] trimmed_nonempty(parts)[i]).contains(c),
    decreases parts.len(),
{
    if parts.len() > 0 {
        assert forall|i: int| 0 <= i < parts.drop_last().len() implies !(#[trigger] parts.drop_last()[i]).contains(c) by {
            assert(parts.drop_last()[i] == parts[i]);
        }
        lemma_trimmed_nonempty_free(parts.drop_last(), c);
        lemma_trim_free(parts.last(), c);
        let rest = trimmed_nonempty(parts.drop_last());
        let t = trim(parts.last());
        assert forall|i: int| 0 <= i < trimmed_nonempty(parts).len() implies !(#[trigger] trimmed_nonempty(parts)[i]).contains(c) by {
            if i < rest.len() {
                assert(trimmed_nonempty(parts)[i] == rest[i]);
            } else {
                assert(trimmed_nonempty(parts)[i] == t);
            }
        }
    }
}

/// The bypass entries hold no separator.
proof fn lemma_bypass_entries_free(bypass: Seq<char>, c: char)
    requires
        bypass_separators().contains(c),
    ensures
        forall|i: int| 0 <= i < bypass_list(bypass).len() ==> !(#[trigger] bypass_list(bypass)[i]).contains(c),
{
    lemma_split_free(bypass, bypass_separators(), c);
    lemma_trimmed_nonempty_free(split_by(bypass, bypass_separators()), c);
}

/// Joining parts free of a character with a separator free of it gives a
/// text free of it.
proof fn lemma_join_free(parts: Seq<Seq<char>>, sep: Seq<char>, c: char)
    requires
        forall|i: int| 0 <= i < parts.len() ==> !(#[trigger] parts[i]).contains(c),
        !sep.contains(c),
    ensures
        !join(parts, sep).contains(c),
    decreases parts.len(),
{
    if parts.len() > 1 {
        assert forall|i: int| 0 <= i < parts.drop_last().len() implies !(#[trigger] parts.drop_last()[i]).contains(c) by {
            assert(parts.drop_last()[i] == parts[i]);
        }
        lemma_join_free(parts.drop_last(), sep, c);
        let a = join(parts.drop_last(), sep);
        let l = parts.last();
        assert(!l.contains(c));
        let all = a + sep + l;
        if all.contains(c) {
            let k = choose|k: int| 0 <= k < all.len() && all[k] == c;
            if k < a.len() {
                assert(a[k] == c);
            } else if k < a.len() + sep.len() {
                assert(sep[k - a.len()] == c);
            } else {
                assert(l[k - a.len() - sep.len()] == c);
            }
        }
    } else if parts.len() == 1 {
        assert(!parts[0].contains(c));
    }
}

/// Replacing a single character distributes over concatenation.
proof fn lemma_replace_concat(a: Seq<char>, b: Seq<char>, from: char, to: Seq<char>)
    ensures
        replace(a + b, seq![from], to) == replace(a, seq![from], to) + replace(b, seq![from], to),
    decreases a.len(),
{
    if a.len() == 0 {
        assert(a + b =~= b);
    } else {
        let f = seq![from];
        assert((a + b)[0] == a[0]);
        assert(f.is_prefix_of(a + b) <==> a[0] == from) by {
            if a[0] == from {
                assert((a + b).subrange(0, 1) =~= f);
            } else if f.is_prefix_of(a + b) {
                assert((a + b).subrange(0, 1)[0] == f[0]);
            }
        }
        assert(f.is_prefix_of(a) <==> a[0] == from) by {
            if a[0] == from {
                assert(a.subrange(0, 1) =~= f);
            } else if f.is_prefix_of(a) {
                assert(a.subrange(0, 1)[0] == f[0]);
            }
        }
        assert((a + b).skip(1) =~= a.skip(1) + b);
        assert((a + b).drop_first() =~= a.drop_first() + b);
        lemma_replace_concat(a.drop_first(), b, from, to);
        if a[0] == from {
            assert(a.skip(1) =~= a.drop_first());
        }
    }
}

/// Text free of the character is left as it is.
proof fn lemma_replace_free(a: Seq<char>, from: char, to: Seq<char>)
    requires
        !a.contains(from),
    ensures
        replace(a, seq![from], to) == a,
    decreases a.len(),
{
    if a.len() > 0 {
        assert(a[0] != from);
        assert(!seq![from].is_prefix_of(a)) by {
            if seq![from].is_prefix_of(a) {
                assert(a.subrange(0, 1)[0] == seq![from][0]);
            }
        }
        assert forall|k: int| 0 <= k < a.drop_first().len() implies a.drop_first()[k] != from by {
            assert(a.drop_first()[k] == a[k + 1]);
        }
        lemma_replace_free(a.drop_first(), from, to);
        assert(seq![a[0]] + a.drop_first() =~= a);
    }
}

/// Entries joined by `,` read with `,` turned into `;` are the entries
/// joined by `;`.
proof fn lemma_replace_join(parts: Seq<Seq<char>>)
    requires
        forall|i: int| 0 <= i < parts.len() ==> !(#[trigger] parts[i]).contains(','),
    ensures
        replace(join(parts, ","@), ","@, ";"@) == join(parts, ";"@),
    decreases parts.len(),
{
    reveal_strlit(",");
    reveal_strlit(";");
    assert(","@ =~= seq![',']);
    if parts.len() == 1 {
        lemma_replace_free(parts[0], ',', ";"@);
    } else if parts.len() > 1 {
        assert forall|i: int| 0 <= i < parts.drop_last().len() implies !(#[trigger] parts.drop_last()[i]).contains(',') by {
            assert(parts.drop_last()[i] == parts[i]);
        }
        lemma_replace_join(parts.drop_last());
        let a = join(parts.drop_last(), ","@);
        let l = parts.last();
        lemma_replace_concat(a + ","@, l, ',', ";"@);
        lemma_replace_concat(a, ","@, ',', ";"@);
        lemma_replace_free(l, ',', ";"@);
        let c = seq![','];
        assert(c.is_prefix_of(c));
        assert(c.skip(1) =~= Seq::<char>::empty());
        assert(replace(c, c, ";"@) =~= ";"@ + replace(Seq::<char>::empty(), c, ";"@));
        assert(replace(c, c, ";"@) =~= ";"@);
    }
}

/// A line break after a line without one starts the next line.
proof fn lemma_split_line(a: Seq<char>, r: Seq<char>)
    requires
        !a.contains('\n'),
    ensures
        split_by(a + seq!['\n'] + r, seq!['\n']) == seq![a] + split_by(r, seq!['\n']),
    decreases a.len(),
{
    let s = a + seq!['\n'] + r;
    if a.len() == 0 {
        assert(a =~= Seq::<char>::empty());
        assert(s[0] == '\n');
        assert(seq!['\n'].contains('\n'));
        assert(s.drop_first() =~= r);
        assert(seq![Seq::<char>::empty()] + split_by(r, seq!['\n']) =~= seq![a] + split_by(r, seq!['\n']));
    } else {
        let a1 = a.drop_first();
        assert(!a1.contains('\n')) by {
            if a1.contains('\n') {
                let k = choose|k: int| 0 <= k < a1.len() && a1[k] == '\n';
                assert(a[k + 1] == '\n');
            }
        }
        lemma_split_line(a1, r);
        assert(s[0] == a[0]);
        assert(!seq!['\n'].contains(a[0])) by {
            if seq!['\n'].contains(a[0]) {
                assert(a[0] == '\n');
            }
        }
        assert(s.drop_first() =~= a1 + seq!['\n'] + r);
        let rest = split_by(s.drop_first(), seq!['\n']);
        assert(rest == seq![a1] + split_by(r, seq!['\n']));
        assert(seq![a[0]] + a1 =~= a);
        assert(rest.update(0, seq![s[0]] + rest[0]) =~= seq![a] + split_by(r, seq!['\n']));
    }
}

/// Text free of a character stays free of it when joined to more such
/// text.
proof fn lemma_concat_free(p: Seq<char>, x: Seq<char>, c: char)
    requires
        !p.contains(c),
        !x.contains(c),
    ensures
        !(p + x).contains(c),
{
    if (p + x).contains(c) {
        let k = choose|k: int| 0 <= k < (p + x).len() && (p + x)[k] == c;
        if k < p.len() {
            assert(p[k] == c);
        } else {
            assert(x[k - p.len()] == c);
        }
    }
}

/// The lines of the environment file.
pub open spec fn env_lines(url: Seq<char>, nb: Seq<char>) -> Seq<Seq<char>> {
    seq![
        "HTTP_PROXY="@ + url,
        "HTTPS_PROXY="@ + url,
        "http_proxy="@ + url,
        "https_proxy="@ + url,
        "NO_PROXY="@ + nb,
        "no_proxy="@ + nb,
    ]
}

proof fn lemma_env_file_lines(host: Seq<char>, port: u16, bypass: Seq<char>)
    requires
        !proxy_url(host, port).contains('\n'),
        !join(bypass_list(bypass), ","@).contains('\n'),
        !join(bypass_list(bypass), ","@).contains('\r'),
    ensures
        lines(linux_env_file(host, port, bypass)) == env_lines(proxy_url(host, port), join(bypass_list(bypass), ","@)),
{
    reveal_strlit("\n");
    reveal_strlit("HTTP_PROXY=");
    reveal_strlit("HTTPS_PROXY=");
    reveal_strlit("http_proxy=");
    reveal_strlit("https_proxy=");
    reveal_strlit("NO_PROXY=");
    reveal_strlit("no_proxy=");
    reveal_strlit("http://");
    reveal_strlit(":");
    let url = proxy_url(host, port);
    let nb = join(bypass_list(bypass), ","@);
    let nl = seq!['\n'];
    let l1 = "HTTP_PROXY="@ + url;
    let l2 = "HTTPS_PROXY="@ + url;
    let l3 = "http_proxy="@ + url;
    let l4 = "https_proxy="@ + url;
    let l5 = "NO_PROXY="@ + nb;
    let l6 = "no_proxy="@ + nb;
    lemma_concat_free("HTTP_PROXY="@, url, '\n');
    lemma_concat_free("HTTPS_PROXY="@, url, '\n');
    lemma_concat_free("http_proxy="@, url, '\n');
    lemma_concat_free("https_proxy="@, url, '\n');
    lemma_concat_free("NO_PROXY="@, nb, '\n');
    lemma_concat_free("no_proxy="@, nb, '\n');
    let e = Seq::<char>::empty();
    let t6 = l6 + nl + e;
    let t5 = l5 + nl + t6;
    let t4 = l4 + nl + t5;
    let t3 = l3 + nl + t4;
    let t2 = l2 + nl + t3;
    let text = l1 + nl + t2;
    assert(text =~= linux_env_file(host, port, bypass));
    lemma_split_line(l6, e);
    lemma_split_line(l5, t6);
    lemma_split_line(l4, t5);
    lemma_split_line(l3, t4);
    lemma_split_line(l2, t3);
    lemma_split_line(l1, t2);
    let parts = split_by(text, nl);
    assert(split_by(e, nl) =~= seq![e]);
    assert(parts =~= seq![l1, l2, l3, l4, l5, l6, e]);
    assert(text.last() == '\n');
    lemma_dec_digits(port as nat);
    assert(url.last() == dec(port as nat).last());
    assert(is_digit(dec(port as nat).last()));
    assert(strip_cr(l1) == l1 && strip_cr(l2) == l2 && strip_cr(l3) == l3 && strip_cr(l4) == l4);
    if nb.len() > 0 {
        assert(l5.last() == nb[nb.len() - 1]);
        assert(l6.last() == nb[nb.len() - 1]);
    }
    assert(lines(text) =~= env_lines(url, nb));
}

/// A text is no prefix of a line that differs from it at some position.
proof fn lemma_differs_at(p: Seq<char>, l: Seq<char>, k: int)
    requires
        0 <= k < p.len(),
        k < l.len(),
        p[k] != l[k],
    ensures
        !p.is_prefix_of(l),
{
    if p.is_prefix_of(l) {
        assert(l.subrange(0, p.len() as int)[k] == l[k]);
    }
}

/// The proxy URL and the joined bypass list hold no line break.
proof fn lemma_env_values_free(host: Seq<char>, port: u16, bypass: Seq<char>)
    requires
        !trim(host).contains('\n'),
    ensures
        !proxy_url(host, port).contains('\n'),
        !join(bypass_list(bypass), ","@).contains('\n'),
        !join(bypass_list(bypass), ","@).contains('\r'),
        forall|i: int|
            0 <= i < bypass_list(bypass).len() ==> !(#[trigger] bypass_list(bypass)[i]).contains(','),
{
    reveal_strlit("http://");
    reveal_strlit(":");
    let h = trim(host);
    let d = dec(port as nat);
    lemma_dec_digits(port as nat);
    let entries = bypass_list(bypass);
    assert(bypass_separators().contains('\n'));
    assert(bypass_separators().contains('\r'));
    assert(bypass_separators().contains(','));
    lemma_bypass_entries_free(bypass, '\n');
    lemma_bypass_entries_free(bypass, '\r');
    lemma_bypass_entries_free(bypass, ',');
    reveal_strlit(",");
    assert(","@ =~= seq![',']);
    assert(!","@.contains('\n') && !","@.contains('\r')) by {
        assert(","@[0] == ',');
    }
    lemma_join_free(entries, ","@, '\n');
    lemma_join_free(entries, ","@, '\r');
    assert forall|k: int| 0 <= k < d.len() implies d[k] != '\n' by {
        assert(is_digit(d[k]));
    }
    lemma_concat_free("http://"@, h, '\n');
    lemma_concat_free("http://"@ + h, ":"@, '\n');
    lemma_concat_free("http://"@ + h + ":"@, d, '\n');
}

/// The proxy line is the first, under the upper-case name.
proof fn lemma_http_proxy_line(url: Seq<char>, nb: Seq<char>)
    ensures
        first_line_value(env_lines(url, nb), "http_proxy="@, "HTTP_PROXY="@) == Some(url),
{
    reveal_strlit("HTTP_PROXY=");
    reveal_strlit("http_proxy=");
    let ls = env_lines(url, nb);
    let l1 = ls[0];
    assert(l1 == "HTTP_PROXY="@ + url);
    lemma_differs_at("http_proxy="@, l1, 0);
    assert("HTTP_PROXY="@.is_prefix_of(l1));
    assert(l1.skip("HTTP_PROXY="@.len() as int) =~= url);
}

/// The URL splits back into the trimmed host and the port.
proof fn lemma_url_endpoint(host: Seq<char>, port: u16)
    ensures
        strip_prefix(proxy_url(host, port), "http://"@) == Some(trim(host) + ":"@ + dec(port as nat)),
        rsplit_once(trim(host) + ":"@ + dec(port as nat), ':') == Some((trim(host), dec(port as nat))),
        parse_unsigned(dec(port as nat), 65535) == Some(port as nat),
{
    reveal_strlit("http://");
    reveal_strlit(":");
    let h = trim(host);
    let d = dec(port as nat);
    lemma_dec_digits(port as nat);
    let url = proxy_url(host, port);
    assert("http://"@.is_prefix_of(url));
    let endpoint = h + ":"@ + d;
    assert(url.skip("http://"@.len() as int) =~= endpoint);
    assert forall|j: int| h.len() < j < endpoint.len() implies endpoint[j] != ':' by {
        assert(endpoint[j] == d[j - h.len() - 1]);
        assert(is_digit(d[j - h.len() - 1]));
    }
    lemma_last_index(endpoint, ':', h.len() as int);
    assert(endpoint.take(h.len() as int) =~= h);
    assert(endpoint.skip(h.len() as int + 1) =~= d);
    law_decimal_roundtrip(port as nat, 65535);
}

/// What the Linux environment file says is what was written into it: the
/// trimmed host, the port, and the bypass entries joined by `;` (for a
/// host whose trimmed form holds no line break).
pub proof fn law_linux_env_file_roundtrip(host: Seq<char>, port: u16, bypass: Seq<char>)
    requires
        !trim(host).contains('\n'),
    ensures
        env_proxy_fields(linux_env_file(host, port, bypass)) == Some((trim(host), port as nat, join(bypass_list(bypass), ";"@))),
{
    let url = proxy_url(host, port);
    let entries = bypass_list(bypass);
    let nb = join(entries, ","@);
    lemma_env_values_free(host, port, bypass);
    lemma_env_file_lines(host, port, bypass);
    lemma_http_proxy_line(url, nb);
    lemma_url_endpoint(host, port);
    lemma_no_proxy_line(url, nb);
    lemma_replace_join(entries);
}

/// The bypass line is the first with either `no_proxy` prefix.
proof fn lemma_no_proxy_line(url: Seq<char>, nb: Seq<char>)
    ensures
        first_line_value(env_lines(url, nb), "no_proxy="@, "NO_PROXY="@) == Some(nb),
{
    reveal_strlit("HTTP_PROXY=");
    reveal_strlit("HTTPS_PROXY=");
    reveal_strlit("http_proxy=");
    reveal_strlit("https_proxy=");
    reveal_strlit("NO_PROXY=");
    reveal_strlit("no_proxy=");
    let ls = env_lines(url, nb);
    let lo = "no_proxy="@;
    let up = "NO_PROXY="@;
    assert(ls[0] == "HTTP_PROXY="@ + url);
    assert(ls[1] == "HTTPS_PROXY="@ + url);
    assert(ls[2] == "http_proxy="@ + url);
    assert(ls[3] == "https_proxy="@ + url);
    assert(ls[4] == up + nb);
    lemma_differs_at(lo, ls[0], 0);
    lemma_differs_at(up, ls[0], 1);
    lemma_differs_at(lo, ls[1], 0);
    lemma_differs_at(up, ls[1], 1);
    lemma_differs_at(lo, ls[2], 0);
    lemma_differs_at(up, ls[2], 0);
    lemma_differs_at(lo, ls[3], 0);
    lemma_differs_at(up, ls[3], 0);
    lemma_differs_at(lo, ls[4], 0);
    assert(up.is_prefix_of(ls[4]));
    assert(ls[4].skip(up.len() as int) =~= nb);
    let t1 = ls.drop_first();
    let t2 = t1.drop_first();
    let t3 = t2.drop_first();
    let t4 = t3.drop_first();
    assert(t4[0] == ls[4]);
    assert(t3[0] == ls[3]);
    assert(t2[0] == ls[2]);
    assert(t1[0] == ls[1]);
    assert(first_line_value(t4, lo, up) == Some(nb));
    assert(first_line_value(t3, lo, up) == Some(nb));
    assert(first_line_value(t2, lo, up) == Some(nb));
    assert(first_line_value(t1, lo, up) == Some(nb));
}

// ---------------------------------------------------------------------------
// macOS
// ---------------------------------------------------------------------------

/// A trimmed line of `networksetup -listallnetworkservices` that names an
/// enabled service: not empty, not the banner, not starting with `*`.
pub open spec fn is_service_line(t: Seq<char>) -> bool {
    t.len() > 0 && !("An asterisk"@.is_prefix_of(t)) && !(seq!['*'].is_prefix_of(t))
}

/// The service names among the lines, trimmed.
pub open spec fn service_lines(ls: Seq<Seq<char>>) -> Seq<Seq<char>>
    decreases ls.len(),
{
    if ls.len() == 0 {
        Seq::empty()
    } else {
        let rest = service_lines(ls.drop_last());
        let t = trim(ls.last());
        if is_service_line(t) {
            rest.push(t)
        } else {
            rest
        }
    }
}

/// The enabled network services listed by `networksetup`.
pub fn parse_macos_services(raw: &str) -> (r: Vec<String>)
    ensures
        string_views(r@) == service_lines(lines(raw@)),
{
    let v = to_chars(raw);
    let ls = lines_of(v.as_slice());
    let banner = to_chars("An asterisk");
    let star = to_chars("*");
    let mut out: Vec<Vec<char>> = Vec::new();
    let mut i: usize = 0;
    while i < ls.len()
        invariant
            i <= ls@.len(),
            banner@ == "An asterisk"@,
            star@ == "*"@,
            views(out@) == service_lines(views(ls@).take(i as int)),
        decreases ls.len() - i,
    {
        proof {
            assert(views(ls@).take(i + 1).drop_last() =~= views(ls@).take(i as int));
            reveal_strlit("*");
            assert(star@ =~= seq!['*']);
        }
        let t = trim_ws(ls[i].as_slice());
        if t.len() > 0 && !starts_with(t.as_slice(), banner.as_slice()) && !starts_with(
            t.as_slice(),
            star.as_slice(),
        ) {
            let ghost old_o = views(out@);
            out.push(t);
            assert(views(out@) =~= old_o.push(t@));
        }
        i = i + 1;
    }
    assert(views(ls@).take(ls@.len() as int) =~= views(ls@));
    strings_of(&out)
}

/// Some line, trimmed, starts with `Enabled:` followed by `yes` in any case.
pub open spec fn proxy_enabled(ls: Seq<Seq<char>>) -> bool {
    exists|i: int|
        0 <= i < ls.len() && (#[trigger] strip_prefix(trim(ls[i]), "Enabled:"@) matches Some(v)
            && eq_ignore_case(trim(v), "Yes"@))
}

/// The trimmed value after `p` on the first trimmed line that starts with `p`.
pub open spec fn first_prefixed(ls: Seq<Seq<char>>, p: Seq<char>) -> Option<Seq<char>>
    decreases ls.len(),
{
    if ls.len() == 0 {
        None
    } else {
        match strip_prefix(trim(ls[0]), p) {
            Some(v) => Some(trim(v)),
            None => first_prefixed(ls.drop_first(), p),
        }
    }
}

/// The value of a `Name: value` line of `networksetup` output, if not empty.
pub open spec fn macos_value(raw: Seq<char>, p: Seq<char>) -> Option<Seq<char>> {
    match first_prefixed(lines(raw), p) {
        Some(v) => if v.len() > 0 {
            Some(v)
        } else {
            None
        },
        None => None,
    }
}

fn macos_value_chars(ls: &Vec<Vec<char>>, prefix: &[char]) -> (r: Option<Vec<char>>)
    ensures
        match r {
            Some(v) => v@.len() > 0 && first_prefixed(views(ls@), prefix@) == Some(v@),
            None => !(first_prefixed(views(ls@), prefix@) matches Some(v) && v.len() > 0),
        },
{
    let mut i: usize = 0;
    assert(views(ls@).skip(0) =~= views(ls@));
    while i < ls.len()
        invariant
            i <= ls@.len(),
            first_prefixed(views(ls@), prefix@) == first_prefixed(
                views(ls@).skip(i as int),
                prefix@,
            ),
        decreases ls.len() - i,
    {
        let ghost t = views(ls@).skip(i as int);
        assert(t[0] == ls@[i as int]@);
        assert(t.drop_first() =~= views(ls@).skip(i + 1));
        let line = trim_ws(ls[i].as_slice());
        match strip_prefix_of(line.as_slice(), prefix) {
            Some(rest) => {
                let value = trim_ws(rest.as_slice());
                if value.len() > 0 {
                    return Some(value);
                } else {
                    return None;
                }
            },
            None => {},
        }
        i = i + 1;
    }
    None
}

/// The value of a `Name: value` line of `networksetup` output.
pub fn macos_proxy_value(raw: &str, prefix: &str) -> (r: Option<String>)
    ensures
        match r {
            Some(v) => macos_value(raw@, prefix@) == Some(v@),
            None => macos_value(raw@, prefix@) is None,
        },
{
    let v = to_chars(raw);
    let ls = lines_of(v.as_slice());
    let p = to_chars(prefix);
    match macos_value_chars(&ls, p.as_slice()) {
        Some(x) => Some(from_chars(x.as_slice())),
        None => None,
    }
}

/// Reads `networksetup -getwebproxy` output: whether the proxy is enabled,
/// the server (empty when absent) and the port (when it parses).
pub fn parse_macos_proxy_output(raw: &str) -> (r: (bool, String, Option<u16>))
    ensures
        r.0 == proxy_enabled(lines(raw@)),
        r.1@ == (match macos_value(raw@, "Server:"@) {
            Some(h) => h,
            None => Seq::empty(),
        }),
        r.2 == (match macos_value(raw@, "Port:"@) {
            Some(p) => match parse_unsigned(p, 65535) {
                Some(n) => Some(n as u16),
                None => None,
            },
            None => None,
        }),
{
    let v = to_chars(raw);
    let ls = lines_of(v.as_slice());
    let enabled_prefix = to_chars("Enabled:");
    let yes = to_chars("Yes");
    let mut enabled = false;
    let mut i: usize = 0;
    while i < ls.len()
        invariant
            i <= ls@.len(),
            enabled_prefix@ == "Enabled:"@,
            yes@ == "Yes"@,
            enabled == exists|j: int|
                0 <= j < i && (#[trigger] strip_prefix(trim(views(ls@)[j]), "Enabled:"@) matches Some(
                    v,
                ) && eq_ignore_case(trim(v), "Yes"@)),
        decreases ls.len() - i,
    {
        let line = trim_ws(ls[i].as_slice());
        assert(views(ls@)[i as int] == ls@[i as int]@);
        match strip_prefix_of(line.as_slice(), enabled_prefix.as_slice()) {
            Some(rest) => {
                let value = trim_ws(rest.as_slice());
                if eq_ignore_ascii_case(value.as_slice(), yes.as_slice()) {
                    enabled = true;
                }
            },
            None => {},
        }
        i = i + 1;
    }
    let host = match macos_proxy_value(raw, "Server:") {
        Some(h) => h,
        None => String::new(),
    };
    let port = match macos_proxy_value(raw, "Port:") {
        Some(p) => {
            let pc = to_chars(p.as_str());
            parse_u16(pc.as_slice())
        },
        None => None,
    };
    (enabled, host, port)
}

/// A trimmed line of `networksetup -getproxybypassdomains` that is an entry.
pub open spec fn is_bypass_line(t: Seq<char>) -> bool {
    t.len() > 0 && !("There aren't any"@.is_prefix_of(t))
}

/// The bypass entries among the lines, trimmed.
pub open spec fn bypass_lines(ls: Seq<Seq<char>>) -> Seq<Seq<char>>
    decreases ls.len(),
{
    if ls.len() == 0 {
        Seq::empty()
    } else {
        let rest = bypass_lines(ls.drop_last());
        let t = trim(ls.last());
        if is_bypass_line(t) {
            rest.push(t)
        } else {
            rest
        }
    }
}

/// Reads `networksetup -getproxybypassdomains` output as a `;` list.
pub fn parse_macos_bypass_output(raw: &str) -> (r: String)
    ensures
        r@ == join(bypass_lines(lines(raw@)), ";"@),
{
    let v = to_chars(raw);
    let ls = lines_of(v.as_slice());
    let none = to_chars("There aren't any");
    let mut out: Vec<Vec<char>> = Vec::new();
    let mut i: usize = 0;
    while i < ls.len()
        invariant
            i <= ls@.len(),
            none@ == "There aren't any"@,
            views(out@) == bypass_lines(views(ls@).take(i as int)),
        decreases ls.len() - i,
    {
        proof {
            assert(views(ls@).take(i + 1).drop_last() =~= views(ls@).take(i as int));
        }
        let t = trim_ws(ls[i].as_slice());
        if t.len() > 0 && !starts_with(t.as_slice(), none.as_slice()) {
            let ghost old_o = views(out@);
            out.push(t);
            assert(views(out@) =~= old_o.push(t@));
        }
        i = i + 1;
    }
    assert(views(ls@).take(ls@.len() as int) =~= views(ls@));
    let semi = to_chars(";");
    let joined = join_with(&out, semi.as_slice());
    from_chars(joined.as_slice())
}

/// `networksetup` with the given arguments.
pub open spec fn networksetup(args: Seq<Seq<char>>) -> CommandView {
    ("networksetup"@, args)
}

/// The three commands that set the HTTP and HTTPS proxy and the bypass list
/// of one service; an empty bypass list is written as `Empty`.
pub open spec fn macos_set_for(
    service: Seq<char>,
    host: Seq<char>,
    port: u16,
    bypass: Seq<Seq<char>>,
) -> Seq<CommandView> {
    seq![
        networksetup(seq!["-setwebproxy"@, service, host, dec(port as nat)]),
        networksetup(seq!["-setsecurewebproxy"@, service, host, dec(port as nat)]),
        networksetup(
            seq!["-setproxybypassdomains"@, service] + (if bypass.len() == 0 {
                seq!["Empty"@]
            } else {
                bypass
            }),
        ),
    ]
}

/// The commands for every service, in order.
pub open spec fn macos_set_plan(
    services: Seq<Seq<char>>,
    host: Seq<char>,
    port: u16,
    bypass: Seq<char>,
) -> Seq<CommandView>
    decreases services.len(),
{
    if services.len() == 0 {
        Seq::empty()
    } else {
        macos_set_plan(services.drop_last(), host, port, bypass) + macos_set_for(
            services.last(),
            host,
            port,
            bypass_list(bypass),
        )
    }
}

/// The three commands that turn the proxies of one service off.
pub open spec fn macos_clear_for(service: Seq<char>) -> Seq<CommandView> {
    seq![
        networksetup(seq!["-setwebproxystate"@, service, "off"@]),
        networksetup(seq!["-setsecurewebproxystate"@, service, "off"@]),
        networksetup(seq!["-setproxybypassdomains"@, service, "Empty"@]),
    ]
}

/// The clearing commands for every service, in order.
pub open spec fn macos_clear_plan(services: Seq<Seq<char>>) -> Seq<CommandView>
    decreases services.len(),
{
    if services.len() == 0 {
        Seq::empty()
    } else {
        macos_clear_plan(services.drop_last()) + macos_clear_for(services.last())
    }
}

fn networksetup_cmd(args: Vec<String>) -> (r: CommandSpec)
    ensures
        r@ == networksetup(string_views(args@)),
{
    CommandSpec::with_args("networksetup", args)
}

/// The commands that point every listed service at the target.
pub fn macos_set_proxy_commands(target: &SystemProxyTarget, services: &Vec<String>) -> (r: Vec<
    CommandSpec,
>)
    ensures
        command_views(r@) == macos_set_plan(
            string_views(services@),
            target.proxy_host@,
            target.proxy_port,
            target.bypass@,
        ),
{
    let bypass = bypass_entries(target.bypass.as_str());
    let port = u64_string(target.proxy_port as u64);
    let mut r: Vec<CommandSpec> = Vec::new();
    let mut i: usize = 0;
    while i < services.len()
        invariant
            i <= services@.len(),
            string_views(bypass@) == bypass_list(target.bypass@),
            port@ == dec(target.proxy_port as nat),
            command_views(r@) == macos_set_plan(
                string_views(services@).take(i as int),
                target.proxy_host@,
                target.proxy_port,
                target.bypass@,
            ),
        decreases services.len() - i,
    {
        proof {
            assert(string_views(services@).take(i + 1).drop_last() =~= string_views(
                services@,
            ).take(i as int));
        }
        let service = &services[i];
        let mut a1: Vec<String> = Vec::new();
        a1.push(to_owned_string("-setwebproxy"));
        a1.push(service.clone());
        a1.push(target.proxy_host.clone());
        a1.push(port.clone());
        let mut a2: Vec<String> = Vec::new();
        a2.push(to_owned_string("-setsecurewebproxy"));
        a2.push(service.clone());
        a2.push(target.proxy_host.clone());
        a2.push(port.clone());
        let mut a3: Vec<String> = Vec::new();
        a3.push(to_owned_string("-setproxybypassdomains"));
        a3.push(service.clone());
        let ghost head3 = string_views(a3@);
        if bypass.len() == 0 {
            a3.push(to_owned_string("Empty"));
            assert(string_views(a3@) =~= head3 + seq!["Empty"@]);
        } else {
            let mut k: usize = 0;
            while k < bypass.len()
                invariant
                    k <= bypass@.len(),
                    string_views(a3@) == head3 + string_views(bypass@).take(k as int),
                decreases bypass.len() - k,
            {
                let ghost before = string_views(a3@);
                a3.push(bypass[k].clone());
                assert(string_views(a3@) =~= before.push(bypass@[k as int]@));
                k = k + 1;
                assert(string_views(a3@) =~= head3 + string_views(bypass@).take(k as int));
            }
            assert(string_views(bypass@).take(bypass@.len() as int) =~= string_views(bypass@));
        }
        let ghost sv = services@[i as int]@;
        let ghost pv = dec(target.proxy_port as nat);
        assert(string_views(a1@) =~= seq!["-setwebproxy"@, sv, target.proxy_host@, pv]);
        assert(string_views(a2@) =~= seq!["-setsecurewebproxy"@, sv, target.proxy_host@, pv]);
        assert(head3 =~= seq!["-setproxybypassdomains"@, sv]);
        let ghost old_r = command_views(r@);
        let c1 = networksetup_cmd(a1);
        let c2 = networksetup_cmd(a2);
        let c3 = networksetup_cmd(a3);
        r.push(c1);
        r.push(c2);
        r.push(c3);
        assert(command_views(r@) =~= old_r + seq![c1@, c2@, c3@]);
        assert(seq![c1@, c2@, c3@] =~= macos_set_for(
            services@[i as int]@,
            target.proxy_host@,
            target.proxy_port,
            bypass_list(target.bypass@),
        ));
        i = i + 1;
    }
    assert(string_views(services@).take(services@.len() as int) =~= string_views(services@));
    r
}

/// The commands that turn the proxies of every listed service off.
pub fn macos_clear_proxy_commands(services: &Vec<String>) -> (r: Vec<CommandSpec>)
    ensures
        command_views(r@) == macos_clear_plan(string_views(services@)),
{
    let mut r: Vec<CommandSpec> = Vec::new();
    let mut i: usize = 0;
    while i < services.len()
        invariant
            i <= services@.len(),
            command_views(r@) == macos_clear_plan(string_views(services@).take(i as int)),
        decreases services.len() - i,
    {
        proof {
            assert(string_views(services@).take(i + 1).drop_last() =~= string_views(
                services@,
            ).take(i as int));
        }
        let service = &services[i];
        let mut a1: Vec<String> = Vec::new();
        a1.push(to_owned_string("-setwebproxystate"));
        a1.push(service.clone());
        a1.push(to_owned_string("off"));
        let mut a2: Vec<String> = Vec::new();
        a2.push(to_owned_string("-setsecurewebproxystate"));
        a2.push(service.clone());
        a2.push(to_owned_string("off"));
        let mut a3: Vec<String> = Vec::new();
        a3.push(to_owned_string("-setproxybypassdomains"));
        a3.push(service.clone());
        a3.push(to_owned_string("Empty"));
        let ghost sv = services@[i as int]@;
        assert(string_views(a1@) =~= seq!["-setwebproxystate"@, sv, "off"@]);
        assert(string_views(a2@) =~= seq!["-setsecurewebproxystate"@, sv, "off"@]);
        assert(string_views(a3@) =~= seq!["-setproxybypassdomains"@, sv, "Empty"@]);
        let ghost old_r = command_views(r@);
        let c1 = networksetup_cmd(a1);
        let c2 = networksetup_cmd(a2);
        let c3 = networksetup_cmd(a3);
        r.push(c1);
        r.push(c2);
        r.push(c3);
        assert(command_views(r@) =~= old_r + seq![c1@, c2@, c3@]);
        assert(seq![c1@, c2@, c3@] =~= macos_clear_for(services@[i as int]@));
        i = i + 1;
    }
    assert(string_views(services@).take(services@.len() as int) =~= string_views(services@));
    r
}

} // verus!
