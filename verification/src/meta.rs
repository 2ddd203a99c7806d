//! Package metadata and the manifest it is serialized to.
//!
//! A [`PackageMeta`] is assembled fresh on every package operation and never
//! mutated afterwards; it is written as a structured text manifest — one
//! record of `name`, `version`, `target` and `depends`, one file per package,
//! at `stage/pkg/<name>.toml`.  The exact text of the manifest is specified
//! here character by character: each field on its own line, string values
//! quoted with the usual backslash escapes (control characters as `\u00XX`),
//! the dependency list bracketed and comma-separated, and index keys written
//! bare only when letters, digits, hyphens and underscores allow it.

use vstd::prelude::*;

verus! {

use vstd::string::StrSliceExecFns;
use vstd::string::StringExecFns;
use crate::text::{push_char, matches_at};

/// The metadata record of one package: the manifest is exactly these fields.
#[derive(Debug, Clone, PartialEq, Eq)]
pub struct PackageMeta {
    /// The package's name, the manifest's filename and unique key.
    pub name: String,
    /// The package's version, as the `version` hook reported it.
    pub version: String,
    /// The target triple the package was built for.
    pub target: String,
    /// The names of the packages this one depends on, in order.
    pub depends: Vec<String>,
}

/// The mathematical image of a [`PackageMeta`].
pub ghost struct MetaView {
    pub name: Seq<char>,
    pub version: Seq<char>,
    pub target: Seq<char>,
    pub depends: Seq<Seq<char>>,
}

impl View for PackageMeta {
    type V = MetaView;

    open spec fn view(&self) -> MetaView {
        MetaView {
            name: self.name@,
            version: self.version@,
            target: self.target@,
            depends: self.depends.deep_view(),
        }
    }
}

/// An index of packages: name to version.
#[derive(Debug, Clone, PartialEq, Eq)]
pub struct PackageMetaList {
    /// The indexed packages, in insertion order, names unique.
    pub packages: Vec<(String, String)>,
}

/// A character that may not stand raw inside a quoted string: the control
/// characters.
pub open spec fn control_char(c: char) -> bool {
    (c as u32) < 0x20 || (c as u32) == 0x7F
}

/// The upper-case hexadecimal digit character for a value below sixteen.
pub open spec fn hex_char(d: nat) -> char
    recommends
        d < 16,
{
    if d == 0 {
        '0'
    } else if d == 1 {
        '1'
    } else if d == 2 {
        '2'
    } else if d == 3 {
        '3'
    } else if d == 4 {
        '4'
    } else if d == 5 {
        '5'
    } else if d == 6 {
        '6'
    } else if d == 7 {
        '7'
    } else if d == 8 {
        '8'
    } else if d == 9 {
        '9'
    } else if d == 10 {
        'A'
    } else if d == 11 {
        'B'
    } else if d == 12 {
        'C'
    } else if d == 13 {
        'D'
    } else if d == 14 {
        'E'
    } else {
        'F'
    }
}

/// The value of an upper-case hexadecimal digit character, if it is one.
pub open spec fn hex_val(c: char) -> Option<nat> {
    if c == '0' {
        Some(0nat)
    } else if c == '1' {
        Some(1nat)
    } else if c == '2' {
        Some(2nat)
    } else if c == '3' {
        Some(3nat)
    } else if c == '4' {
        Some(4nat)
    } else if c == '5' {
        Some(5nat)
    } else if c == '6' {
        Some(6nat)
    } else if c == '7' {
        Some(7nat)
    } else if c == '8' {
        Some(8nat)
    } else if c == '9' {
        Some(9nat)
    } else if c == 'A' {
        Some(10nat)
    } else if c == 'B' {
        Some(11nat)
    } else if c == 'C' {
        Some(12nat)
    } else if c == 'D' {
        Some(13nat)
    } else if c == 'E' {
        Some(14nat)
    } else if c == 'F' {
        Some(15nat)
    } else {
        None
    }
}

/// How one character is written inside a quoted string: backslash, quote,
/// newline, carriage return and tab get their short escapes, any other
/// control character — forbidden raw in a quoted string — its `\u00XX`
/// escape, everything else stands for itself.
pub open spec fn escape_char(c: char) -> Seq<char> {
    if c == '\\' {
        seq!['\\', '\\']
    } else if c == '"' {
        seq!['\\', '"']
    } else if c == '\n' {
        seq!['\\', 'n']
    } else if c == '\r' {
        seq!['\\', 'r']
    } else if c == '\t' {
        seq!['\\', 't']
    } else if control_char(c) {
        seq![
            '\\',
            'u',
            '0',
            '0',
            hex_char(((c as u32) / 16) as nat),
            hex_char(((c as u32) % 16) as nat),
        ]
    } else {
        seq![c]
    }
}

/// A string's characters, each escaped.
pub open spec fn escaped(s: Seq<char>) -> Seq<char>
    decreases s.len(),
{
    if s.len() == 0 {
        Seq::empty()
    } else {
        escaped(s.drop_last()) + escape_char(s.last())
    }
}

/// A string value as the manifest writes it: escaped, between quotes.
pub open spec fn quoted(s: Seq<char>) -> Seq<char> {
    seq!['"'] + escaped(s) + seq!['"']
}

/// The items of a list value, quoted and separated by `", "`.
pub open spec fn quoted_items(items: Seq<Seq<char>>) -> Seq<char>
    decreases items.len(),
{
    if items.len() == 0 {
        Seq::empty()
    } else if items.len() == 1 {
        quoted(items[0])
    } else {
        quoted_items(items.drop_last()) + ", "@ + quoted(items.last())
    }
}

/// The manifest text of one package record.
pub open spec fn meta_doc(
    name: Seq<char>,
    version: Seq<char>,
    target: Seq<char>,
    depends: Seq<Seq<char>>,
) -> Seq<char> {
    "name = "@ + quoted(name) + "\n"@ + "version = "@ + quoted(version) + "\n"@ + "target = "@
        + quoted(target) + "\n"@ + "depends = ["@ + quoted_items(depends) + "]\n"@
}

/// A character a key may carry and still be written bare: a letter, a
/// digit, a hyphen or an underscore.
pub open spec fn bare_char(c: char) -> bool {
    ||| ('a' as u32) <= (c as u32) <= ('z' as u32)
    ||| ('A' as u32) <= (c as u32) <= ('Z' as u32)
    ||| ('0' as u32) <= (c as u32) <= ('9' as u32)
    ||| c == '-'
    ||| c == '_'
}

/// A key written without quotes: non-empty, every character bare.
pub open spec fn key_is_bare(k: Seq<char>) -> bool {
    k.len() > 0 && forall|j: int| 0 <= j < k.len() ==> bare_char(#[trigger] k[j])
}

/// How the index writes a key: bare when it can be, quoted otherwise.
pub open spec fn key_text(k: Seq<char>) -> Seq<char> {
    if key_is_bare(k) {
        k
    } else {
        quoted(k)
    }
}

/// The entry lines of a package index, one `name = "version"` line each.
pub open spec fn list_entries(ps: Seq<(Seq<char>, Seq<char>)>) -> Seq<char>
    decreases ps.len(),
{
    if ps.len() == 0 {
        Seq::empty()
    } else {
        list_entries(ps.drop_last()) + key_text(ps.last().0) + " = "@ + quoted(ps.last().1)
            + "\n"@
    }
}

/// The text of a package index: a `[packages]` header, then the entries.
pub open spec fn list_doc(ps: Seq<(Seq<char>, Seq<char>)>) -> Seq<char> {
    "[packages]\n"@ + list_entries(ps)
}

/// The upper-case hexadecimal digit character for a value below sixteen.
fn hex_digit_char(d: u32) -> (r: char)
    requires
        d < 16,
    ensures
        r == hex_char(d as nat),
{
    if d == 0 {
        '0'
    } else if d == 1 {
        '1'
    } else if d == 2 {
        '2'
    } else if d == 3 {
        '3'
    } else if d == 4 {
        '4'
    } else if d == 5 {
        '5'
    } else if d == 6 {
        '6'
    } else if d == 7 {
        '7'
    } else if d == 8 {
        '8'
    } else if d == 9 {
        '9'
    } else if d == 10 {
        'A'
    } else if d == 11 {
        'B'
    } else if d == 12 {
        'C'
    } else if d == 13 {
        'D'
    } else if d == 14 {
        'E'
    } else {
        'F'
    }
}

/// The value of an upper-case hexadecimal digit character, as [`hex_val`]
/// says.
fn hex_digit(c: char) -> (r: Option<u8>)
    ensures
        match r {
            Some(d) => hex_val(c) == Some(d as nat) && d < 16,
            None => hex_val(c) is None,
        },
{
    if c == '0' {
        Some(0)
    } else if c == '1' {
        Some(1)
    } else if c == '2' {
        Some(2)
    } else if c == '3' {
        Some(3)
    } else if c == '4' {
        Some(4)
    } else if c == '5' {
        Some(5)
    } else if c == '6' {
        Some(6)
    } else if c == '7' {
        Some(7)
    } else if c == '8' {
        Some(8)
    } else if c == '9' {
        Some(9)
    } else if c == 'A' {
        Some(10)
    } else if c == 'B' {
        Some(11)
    } else if c == 'C' {
        Some(12)
    } else if c == 'D' {
        Some(13)
    } else if c == 'E' {
        Some(14)
    } else if c == 'F' {
        Some(15)
    } else {
        None
    }
}

/// Appends `s` with every character escaped.
fn append_escaped(out: &mut String, s: &str)
    ensures
        final (out)@ == old(out)@ + escaped(s@),
{
    let n: usize = s.unicode_len();
    let mut i: usize = 0;
    while i < n
        invariant
            i <= n,
            n == s@.len(),
            out@ == old(out)@ + escaped(s@.subrange(0, i as int)),
        decreases n - i,
    {
        let c = s.get_char(i);
        if c == '\\' {
            proof {
                reveal_strlit("\\\\");
                assert("\\\\"@ =~= seq!['\\', '\\']);
            }
            out.append("\\\\");
        } else if c == '"' {
            proof {
                reveal_strlit("\\\"");
                assert("\\\""@ =~= seq!['\\', '"']);
            }
            out.append("\\\"");
        } else if c == '\n' {
            proof {
                reveal_strlit("\\n");
                assert("\\n"@ =~= seq!['\\', 'n']);
            }
            out.append("\\n");
        } else if c == '\r' {
            proof {
                reveal_strlit("\\r");
                assert("\\r"@ =~= seq!['\\', 'r']);
            }
            out.append("\\r");
        } else if c == '\t' {
            proof {
                reveal_strlit("\\t");
                assert("\\t"@ =~= seq!['\\', 't']);
            }
            out.append("\\t");
        } else if (c as u32) < 0x20 || (c as u32) == 0x7F {
            proof {
                reveal_strlit("\\u00");
                assert("\\u00"@ =~= seq!['\\', 'u', '0', '0']);
            }
            out.append("\\u00");
            let v: u32 = c as u32;
            push_char(out, hex_digit_char(v / 16));
            push_char(out, hex_digit_char(v % 16));
        } else {
            push_char(out, c);
        }
        proof {
            assert(s@.subrange(0, i + 1).drop_last() =~= s@.subrange(0, i as int));
            assert(s@.subrange(0, i + 1).last() == s@[i as int]);
            assert(out@ =~= old(out)@ + escaped(s@.subrange(0, i + 1)));
        }
        i = i + 1;
    }
    proof {
        assert(s@.subrange(0, n as int) =~= s@);
    }
}

/// Appends `s` as a quoted manifest string.
fn append_quoted(out: &mut String, s: &str)
    ensures
        final (out)@ == old(out)@ + quoted(s@),
{
    push_char(out, '"');
    append_escaped(out, s);
    push_char(out, '"');
    proof {
        assert(out@ =~= old(out)@ + quoted(s@));
    }
}

/// Whether a key can be written bare: non-empty, letters, digits, hyphens
/// and underscores only.
fn key_bare(k: &str) -> (r: bool)
    ensures
        r == key_is_bare(k@),
{
    let n: usize = k.unicode_len();
    if n == 0 {
        return false;
    }
    let mut i: usize = 0;
    while i < n
        invariant
            i <= n,
            n == k@.len(),
            forall|j: int| 0 <= j < i ==> bare_char(#[trigger] k@[j]),
        decreases n - i,
    {
        let c = k.get_char(i);
        let v: u32 = c as u32;
        let ok = (97 <= v && v <= 122) || (65 <= v && v <= 90) || (48 <= v && v <= 57) || v == 45
            || v == 95;
        if !ok {
            assert(!bare_char(k@[i as int]));
            return false;
        }
        i = i + 1;
    }
    true
}

/// Appends the quoted, comma-separated items of a list value.
fn append_items(out: &mut String, items: &Vec<String>)
    ensures
        final (out)@ == old(out)@ + quoted_items(items.deep_view()),
{
    let mut i: usize = 0;
    while i < items.len()
        invariant
            i <= items@.len(),
            out@ == old(out)@ + quoted_items(items.deep_view().subrange(0, i as int)),
        decreases items@.len() - i,
    {
        if i > 0 {
            out.append(", ");
        }
        append_quoted(out, items[i].as_str());
        proof {
            let dv = items.deep_view();
            assert(dv.subrange(0, i + 1).drop_last() =~= dv.subrange(0, i as int));
            assert(dv.subrange(0, i + 1).last() == dv[i as int]);
            assert(out@ =~= old(out)@ + quoted_items(dv.subrange(0, i + 1)));
        }
        i = i + 1;
    }
    proof {
        assert(items.deep_view().subrange(0, items@.len() as int) =~= items.deep_view());
    }
}

impl PackageMeta {
    /// A record with the given name, version and target, and no
    /// dependencies.
    pub fn new(name: &str, version: &str, target: &str) -> (r: Self)
        ensures
            r.name@ == name@,
            r.version@ == version@,
            r.target@ == target@,
            r.depends.deep_view() == Seq::<Seq<char>>::empty(),
    {
        let r = PackageMeta {
            name: name.to_owned(),
            version: version.to_owned(),
            target: target.to_owned(),
            depends: Vec::new(),
        };
        proof {
            assert(r.depends.deep_view() =~= Seq::<Seq<char>>::empty());
        }
        r
    }

    /// Serializes the record to its manifest text, exactly [`meta_doc`].
    pub fn to_toml(&self) -> (r: String)
        ensures
            r@ == meta_doc(self.name@, self.version@, self.target@, self.depends.deep_view()),
    {
        let mut out = String::new();
        out.append("name = ");
        append_quoted(&mut out, self.name.as_str());
        out.append("\n");
        out.append("version = ");
        append_quoted(&mut out, self.version.as_str());
        out.append("\n");
        out.append("target = ");
        append_quoted(&mut out, self.target.as_str());
        out.append("\n");
        out.append("depends = [");
        append_items(&mut out, &self.depends);
        out.append("]\n");
        proof {
            assert(out@ =~= meta_doc(
                self.name@,
                self.version@,
                self.target@,
                self.depends.deep_view(),
            ));
        }
        out
    }
}

impl PackageMetaList {
    /// An empty index.
    pub fn new() -> (r: Self)
        ensures
            r.packages.deep_view() == Seq::<(Seq<char>, Seq<char>)>::empty(),
    {
        let r = PackageMetaList { packages: Vec::new() };
        proof {
            assert(r.packages.deep_view() =~= Seq::<(Seq<char>, Seq<char>)>::empty());
        }
        r
    }

    /// Serializes the index to its manifest text, exactly [`list_doc`].
    pub fn to_toml(&self) -> (r: String)
        ensures
            r@ == list_doc(self.packages.deep_view()),
    {
        let mut out = String::new();
        out.append("[packages]\n");
        let mut i: usize = 0;
        while i < self.packages.len()
            invariant
                i <= self.packages@.len(),
                out@ == "[packages]\n"@ + list_entries(self.packages.deep_view().subrange(0, i as int)),
            decreases self.packages@.len() - i,
        {
            let entry = &self.packages[i];
            if key_bare(entry.0.as_str()) {
                out.append(entry.0.as_str());
            } else {
                append_quoted(&mut out, entry.0.as_str());
            }
            out.append(" = ");
            append_quoted(&mut out, entry.1.as_str());
            out.append("\n");
            proof {
                let dv = self.packages.deep_view();
                assert(dv.subrange(0, i + 1).drop_last() =~= dv.subrange(0, i as int));
                assert(dv.subrange(0, i + 1).last() == dv[i as int]);
                assert(out@ =~= "[packages]\n"@ + list_entries(dv.subrange(0, i + 1)));
            }
            i = i + 1;
        }
        proof {
            let dv = self.packages.deep_view();
            assert(dv.subrange(0, self.packages@.len() as int) =~= dv);
        }
        out
    }
}

/// The character a backslash escape stands for, if the character after the
/// backslash makes one.
pub open spec fn unescape_char(c: char) -> Option<char> {
    if c == '\\' {
        Some('\\')
    } else if c == '"' {
        Some('"')
    } else if c == 'n' {
        Some('\n')
    } else if c == 'r' {
        Some('\r')
    } else if c == 't' {
        Some('\t')
    } else {
        None
    }
}

/// Parses the rest of a quoted string from `i`, just after the opening
/// quote: the unescaped value, and the index just past the closing quote.
/// `None` on an unterminated string, an unknown escape, or a `\u` escape
/// naming anything but a control character — only those are written that
/// way.
pub open spec fn parse_string_body(s: Seq<char>, i: int) -> Option<(Seq<char>, int)>
    decreases s.len() - i when 0 <= i <= s.len()
{
    if i >= s.len() {
        None
    } else if s[i] == '"' {
        Some((Seq::empty(), i + 1))
    } else if s[i] == '\\' {
        if i + 1 >= s.len() {
            None
        } else if s[i + 1] == 'u' {
            if i + 6 > s.len() {
                None
            } else if s[i + 2] == '0' && s[i + 3] == '0' {
                match (hex_val(s[i + 4]), hex_val(s[i + 5])) {
                    (Some(hi), Some(lo)) => {
                        let v = hi * 16 + lo;
                        if v < 0x20 || v == 0x7F {
                            match parse_string_body(s, i + 6) {
                                None => None,
                                Some((rest, j)) => Some((seq![v as char] + rest, j)),
                            }
                        } else {
                            None
                        }
                    },
                    _ => None,
                }
            } else {
                None
            }
        } else {
            match unescape_char(s[i + 1]) {
                None => None,
                Some(c) => match parse_string_body(s, i + 2) {
                    None => None,
                    Some((rest, j)) => Some((seq![c] + rest, j)),
                },
            }
        }
    } else {
        match parse_string_body(s, i + 1) {
            None => None,
            Some((rest, j)) => Some((seq![s[i]] + rest, j)),
        }
    }
}

/// A parsed string body ends after where it began and within the text.
pub proof fn lemma_parse_string_body_bounds(s: Seq<char>, i: int)
    requires
        0 <= i <= s.len(),
    ensures
        parse_string_body(s, i) matches Some(p) ==> i < p.1 <= s.len(),
    decreases s.len() - i,
{
    if i >= s.len() {
    } else if s[i] == '"' {
    } else if s[i] == '\\' {
        if i + 1 < s.len() {
            if s[i + 1] == 'u' {
                if i + 6 <= s.len() {
                    lemma_parse_string_body_bounds(s, i + 6);
                }
            } else {
                lemma_parse_string_body_bounds(s, i + 2);
            }
        }
    } else {
        lemma_parse_string_body_bounds(s, i + 1);
    }
}

/// Parses a quoted string standing at `i`: the unescaped value, and the
/// index just past the closing quote.
pub open spec fn parse_quoted(s: Seq<char>, i: int) -> Option<(Seq<char>, int)> {
    if 0 <= i && i < s.len() && s[i] == '"' {
        parse_string_body(s, i + 1)
    } else {
        None
    }
}

/// Consumes an exact literal at `i`: the index just past it.
pub open spec fn expect(s: Seq<char>, i: int, lit: Seq<char>) -> Option<int> {
    if 0 <= i && i + lit.len() <= s.len() && s.subrange(i, i + lit.len()) == lit {
        Some(i + lit.len())
    } else {
        None
    }
}

/// Parses the items of a bracketed list from `i`, just after the opening
/// bracket: the unescaped items, and the index just past the closing
/// bracket.
pub open spec fn parse_items(s: Seq<char>, i: int) -> Option<(Seq<Seq<char>>, int)>
    decreases s.len() - i when 0 <= i <= s.len() via parse_items_decreases
{
    if i < s.len() && s[i] == ']' {
        Some((Seq::empty(), i + 1))
    } else {
        match parse_quoted(s, i) {
            None => None,
            Some((v, j)) => if j < s.len() && s[j] == ']' {
                Some((seq![v], j + 1))
            } else {
                match expect(s, j, ", "@) {
                    None => None,
                    Some(k) => match parse_items(s, k) {
                        None => None,
                        Some((rest, m)) => Some((seq![v] + rest, m)),
                    },
                }
            },
        }
    }
}

#[via_fn]
proof fn parse_items_decreases(s: Seq<char>, i: int) {
    if !(i < s.len() && s[i] == ']') && parse_quoted(s, i) is Some {
        lemma_parse_string_body_bounds(s, i + 1);
    }
}

/// The record a manifest text parses to, when the whole text is exactly one
/// record in the form [`meta_doc`] writes (the list tolerating a trailing
/// separator).
pub open spec fn parse_meta_doc(s: Seq<char>) -> Option<MetaView> {
    match expect(s, 0, "name = "@) {
        None => None,
        Some(i1) => match parse_quoted(s, i1) {
            None => None,
            Some((name, i2)) => match expect(s, i2, "\nversion = "@) {
                None => None,
                Some(i3) => match parse_quoted(s, i3) {
                    None => None,
                    Some((version, i4)) => match expect(s, i4, "\ntarget = "@) {
                        None => None,
                        Some(i5) => match parse_quoted(s, i5) {
                            None => None,
                            Some((target, i6)) => match expect(s, i6, "\ndepends = ["@) {
                                None => None,
                                Some(i7) => match parse_items(s, i7) {
                                    None => None,
                                    Some((depends, i8)) => match expect(s, i8, "\n"@) {
                                        None => None,
                                        Some(i9) => if i9 == s.len() {
                                            Some(MetaView { name, version, target, depends })
                                        } else {
                                            None
                                        },
                                    },
                                },
                            },
                        },
                    },
                },
            },
        },
    }
}

/// Consumes an exact literal, as [`expect`] says.
fn expect_lit(s: &str, i: usize, lit: &str) -> (r: Option<usize>)
    ensures
        match r {
            Some(j) => expect(s@, i as int, lit@) == Some(j as int),
            None => expect(s@, i as int, lit@) is None,
        },
{
    let n: usize = s.unicode_len();
    let ln: usize = lit.unicode_len();
    if i > n || ln > n - i {
        return None;
    }
    if matches_at(s, lit, i) {
        Some(i + ln)
    } else {
        None
    }
}

/// Parses the rest of a quoted string, as [`parse_string_body`] says.
fn scan_string_body(s: &str, i: usize) -> (r: Option<(String, usize)>)
    requires
        i <= s@.len(),
    ensures
        match r {
            Some(p) => parse_string_body(s@, i as int) == Some((p.0@, p.1 as int)),
            None => parse_string_body(s@, i as int) is None,
        },
    decreases s@.len() - i,
{
    let n: usize = s.unicode_len();
    if i >= n {
        return None;
    }
    let c = s.get_char(i);
    if c == '"' {
        return Some((String::new(), i + 1));
    }
    if c == '\\' {
        if i + 1 >= n {
            return None;
        }
        let e = s.get_char(i + 1);
        if e == 'u' {
            if n - i < 6 {
                return None;
            }
            if s.get_char(i + 2) != '0' || s.get_char(i + 3) != '0' {
                return None;
            }
            let hi = match hex_digit(s.get_char(i + 4)) {
                Some(d) => d,
                None => {
                    return None;
                },
            };
            let lo = match hex_digit(s.get_char(i + 5)) {
                Some(d) => d,
                None => {
                    return None;
                },
            };
            let v: u8 = hi * 16 + lo;
            if !(v < 0x20 || v == 0x7F) {
                return None;
            }
            let u: char = v as char;
            return match scan_string_body(s, i + 6) {
                None => None,
                Some((rest, j)) => {
                    let mut out = String::new();
                    push_char(&mut out, u);
                    out.append(rest.as_str());
                    proof {
                        assert(out@ =~= seq![u] + rest@);
                    }
                    Some((out, j))
                },
            };
        }
        let u: char = if e == '\\' {
            '\\'
        } else if e == '"' {
            '"'
        } else if e == 'n' {
            '\n'
        } else if e == 'r' {
            '\r'
        } else if e == 't' {
            '\t'
        } else {
            return None;
        };
        match scan_string_body(s, i + 2) {
            None => None,
            Some((rest, j)) => {
                let mut v = String::new();
                push_char(&mut v, u);
                v.append(rest.as_str());
                proof {
                    assert(v@ =~= seq![u] + rest@);
                }
                Some((v, j))
            },
        }
    } else {
        match scan_string_body(s, i + 1) {
            None => None,
            Some((rest, j)) => {
                let mut v = String::new();
                push_char(&mut v, c);
                v.append(rest.as_str());
                proof {
                    assert(v@ =~= seq![s@[i as int]] + rest@);
                }
                Some((v, j))
            },
        }
    }
}

/// Parses a quoted string standing at `i`, as [`parse_quoted`] says.
fn scan_quoted(s: &str, i: usize) -> (r: Option<(String, usize)>)
    requires
        i <= s@.len(),
    ensures
        match r {
            Some(p) => parse_quoted(s@, i as int) == Some((p.0@, p.1 as int)),
            None => parse_quoted(s@, i as int) is None,
        },
{
    let n: usize = s.unicode_len();
    if i < n && s.get_char(i) == '"' {
        scan_string_body(s, i + 1)
    } else {
        None
    }
}

/// Parses a bracketed list's items from `i`, as [`parse_items`] says.
fn scan_items(s: &str, i: usize) -> (r: Option<(Vec<String>, usize)>)
    requires
        i <= s@.len(),
    ensures
        match r {
            Some(p) => parse_items(s@, i as int) == Some((p.0.deep_view(), p.1 as int)),
            None => parse_items(s@, i as int) is None,
        },
    decreases s@.len() - i,
{
    let n: usize = s.unicode_len();
    if i < n && s.get_char(i) == ']' {
        let empty: Vec<String> = Vec::new();
        proof {
            assert(empty.deep_view() =~= Seq::<Seq<char>>::empty());
        }
        return Some((empty, i + 1));
    }
    match scan_quoted(s, i) {
        None => None,
        Some((v, j)) => {
            proof {
                lemma_parse_string_body_bounds(s@, i + 1);
            }
            if j < n && s.get_char(j) == ']' {
                let ghost gv = v@;
                let mut one: Vec<String> = Vec::new();
                one.push(v);
                proof {
                    assert(one.deep_view() =~= seq![gv]);
                }
                return Some((one, j + 1));
            }
            match expect_lit(s, j, ", ") {
                None => None,
                Some(k) => match scan_items(s, k) {
                    None => None,
                    Some((rest, m)) => {
                        let ghost gv = v@;
                        let mut out: Vec<String> = Vec::new();
                        out.push(v);
                        let mut x: usize = 0;
                        while x < rest.len()
                            invariant
                                x <= rest@.len(),
                                out@.len() == x + 1,
                                out@[0]@ == gv,
                                forall|y: int| 0 <= y < x ==> out@[y + 1]@ == rest@[y]@,
                            decreases rest@.len() - x,
                        {
                            out.push(rest[x].clone());
                            x = x + 1;
                        }
                        proof {
                            assert(out.deep_view() =~= seq![gv] + rest.deep_view());
                        }
                        Some((out, m))
                    },
                },
            }
        },
    }
}

/// Carving a region: if `s` holds `a + b` at `i`, it holds `a` at `i` and
/// `b` right after.
proof fn lemma_region_split(s: Seq<char>, i: int, a: Seq<char>, b: Seq<char>)
    requires
        0 <= i,
        i + a.len() + b.len() <= s.len(),
        s.subrange(i, i + a.len() + b.len()) == a + b,
    ensures
        s.subrange(i, i + a.len()) == a,
        s.subrange(i + a.len(), i + a.len() + b.len()) == b,
{
    let w = s.subrange(i, i + a.len() + b.len());
    assert forall|k: int| 0 <= k < a.len() implies s.subrange(i, i + a.len() as int)[k] == a[k] by {
        assert(s.subrange(i, i + a.len() as int)[k] == s[i + k]);
        assert(w[k] == s[i + k]);
        assert((a + b)[k] == a[k]);
    }
    assert(s.subrange(i, i + a.len()) =~= a);
    assert forall|k: int|
        0 <= k < b.len() implies s.subrange(i + a.len(), i + a.len() + b.len())[k] == b[k] by {
        assert(s.subrange(i + a.len(), i + a.len() + b.len())[k] == s[i + a.len() + k]);
        assert(w[a.len() + k] == s[i + a.len() + k]);
        assert((a + b)[a.len() + k] == b[k]);
    }
    assert(s.subrange(i + a.len(), i + a.len() + b.len()) =~= b);
}

/// One character out of a region: if `s` holds `a` at `i`, then
/// `s[i + k] == a[k]`.
proof fn lemma_region_char(s: Seq<char>, i: int, a: Seq<char>, k: int)
    requires
        0 <= i,
        i + a.len() <= s.len(),
        s.subrange(i, i + a.len()) == a,
        0 <= k < a.len(),
    ensures
        s[i + k] == a[k],
{
    assert(s.subrange(i, i + a.len() as int)[k] == s[i + k]);
}

/// Escaping one character more escapes it at the front.
proof fn lemma_escaped_cons(c: char, y: Seq<char>)
    ensures
        escaped(seq![c] + y) == escape_char(c) + escaped(y),
    decreases y.len(),
{
    let cy = seq![c] + y;
    if y.len() == 0 {
        assert(y =~= Seq::<char>::empty());
        assert(cy.drop_last() =~= Seq::<char>::empty());
        assert(cy.last() == c);
        assert(escaped(Seq::<char>::empty()) == Seq::<char>::empty());
        assert(escaped(cy) == escaped(cy.drop_last()) + escape_char(cy.last()));
        assert(escaped(cy) =~= escape_char(c) + escaped(y));
    } else {
        let y0 = y.drop_last();
        let d = y.last();
        lemma_escaped_cons(c, y0);
        assert(cy.drop_last() =~= seq![c] + y0);
        assert(cy.last() == d);
        assert(escaped(cy) == escaped(cy.drop_last()) + escape_char(cy.last()));
        assert(escaped(y) == escaped(y0) + escape_char(d));
        assert(escaped(cy) =~= escape_char(c) + escaped(y));
    }
}

/// Parsing inverts escaping: a string body holding exactly `escaped(x)`
/// followed by the closing quote parses back to `x`.
proof fn lemma_parse_escaped(x: Seq<char>, s: Seq<char>, i: int)
    requires
        0 <= i,
        i + escaped(x).len() < s.len(),
        s.subrange(i, i + escaped(x).len()) == escaped(x),
        s[i + escaped(x).len()] == '"',
    ensures
        parse_string_body(s, i) == Some((x, i + escaped(x).len() + 1)),
    decreases x.len(),
{
    if x.len() == 0 {
        assert(escaped(x) == Seq::<char>::empty());
        assert(x =~= Seq::<char>::empty());
    } else {
        let c = x[0];
        let y = x.drop_first();
        assert(seq![c] + y =~= x);
        lemma_escaped_cons(c, y);
        let ec = escape_char(c);
        let ey = escaped(y);
        assert(escaped(x) == ec + ey);
        assert(ec.len() + ey.len() == escaped(x).len());
        lemma_region_split(s, i, ec, ey);
        if c == '\\' || c == '"' || c == '\n' || c == '\r' || c == '\t' {
            assert(ec.len() == 2);
            lemma_region_char(s, i, ec, 0);
            lemma_region_char(s, i, ec, 1);
            assert(s[i] == '\\');
            assert(unescape_char(s[i + 1]) == Some(c));
            assert(s[i + 2 + ey.len()] == '"');
            lemma_parse_escaped(y, s, i + 2);
            assert(parse_string_body(s, i) == Some((seq![c] + y, i + escaped(x).len() + 1)));
        } else if control_char(c) {
            let cv = c as u32;
            let hi = (cv / 16) as nat;
            let lo = (cv % 16) as nat;
            assert(ec == seq!['\\', 'u', '0', '0', hex_char(hi), hex_char(lo)]);
            assert(ec.len() == 6);
            lemma_region_char(s, i, ec, 0);
            lemma_region_char(s, i, ec, 1);
            lemma_region_char(s, i, ec, 2);
            lemma_region_char(s, i, ec, 3);
            lemma_region_char(s, i, ec, 4);
            lemma_region_char(s, i, ec, 5);
            assert(s[i] == '\\');
            assert(s[i + 1] == 'u');
            assert(s[i + 2] == '0' && s[i + 3] == '0');
            assert(hi < 16 && lo < 16);
            assert(hex_val(s[i + 4]) == Some(hi));
            assert(hex_val(s[i + 5]) == Some(lo));
            assert(hi * 16 + lo == cv);
            vstd::utf8::char_u32_cast(c, cv);
            assert((cv as char) == c);
            assert(s[i + 6 + ey.len()] == '"');
            lemma_parse_escaped(y, s, i + 6);
            assert(parse_string_body(s, i) == Some((seq![c] + y, i + escaped(x).len() + 1)));
        } else {
            assert(ec == seq![c]);
            lemma_region_char(s, i, ec, 0);
            assert(s[i] == c);
            assert(c != '"' && c != '\\');
            assert(s[i + 1 + ey.len()] == '"');
            lemma_parse_escaped(y, s, i + 1);
            assert(parse_string_body(s, i) == Some((seq![c] + y, i + escaped(x).len() + 1)));
        }
    }
}

/// Parsing inverts quoting: a region holding exactly `quoted(x)` parses
/// back to `x`.
proof fn lemma_parse_quoted_exact(x: Seq<char>, s: Seq<char>, i: int)
    requires
        0 <= i,
        i + quoted(x).len() <= s.len(),
        s.subrange(i, i + quoted(x).len()) == quoted(x),
    ensures
        parse_quoted(s, i) == Some((x, i + quoted(x).len())),
{
    let ex = escaped(x);
    assert(quoted(x) == (seq!['"'] + ex) + seq!['"']);
    lemma_region_split(s, i, seq!['"'] + ex, seq!['"']);
    lemma_region_split(s, i, seq!['"'], ex);
    lemma_region_char(s, i, seq!['"'], 0);
    assert(s[i] == '"');
    lemma_region_char(s, i + 1 + ex.len(), seq!['"'], 0);
    assert(s[i + 1 + ex.len()] == '"');
    lemma_parse_escaped(x, s, i + 1);
}

/// A list of two or more items is its first item, a separator, and the
/// rest.
proof fn lemma_quoted_items_cons(ds: Seq<Seq<char>>)
    requires
        ds.len() >= 2,
    ensures
        quoted_items(ds) == quoted(ds[0]) + ", "@ + quoted_items(ds.drop_first()),
    decreases ds.len(),
{
    if ds.len() == 2 {
        assert(ds.drop_last() =~= seq![ds[0]]);
        assert(ds.drop_first() =~= seq![ds[1]]);
        assert(quoted_items(ds) == quoted_items(ds.drop_last()) + ", "@ + quoted(ds.last()));
        assert(quoted_items(seq![ds[0]]) == quoted(ds[0]));
        assert(quoted_items(seq![ds[1]]) == quoted(ds[1]));
        assert(ds.last() == ds[1]);
        assert(quoted_items(ds) =~= quoted(ds[0]) + ", "@ + quoted_items(ds.drop_first()));
    } else {
        let ds0 = ds.drop_last();
        lemma_quoted_items_cons(ds0);
        assert(ds0[0] == ds[0]);
        assert(ds0.drop_first() =~= ds.drop_first().drop_last());
        assert(ds.drop_first().last() == ds.last());
        assert(quoted_items(ds) == quoted_items(ds0) + ", "@ + quoted(ds.last()));
        assert(quoted_items(ds.drop_first()) == quoted_items(ds.drop_first().drop_last()) + ", "@
            + quoted(ds.drop_first().last()));
        assert(quoted_items(ds) =~= quoted(ds[0]) + ", "@ + quoted_items(ds.drop_first()));
    }
}

/// Parsing inverts the list serialization: a region holding exactly
/// `quoted_items(ds)` followed by the closing bracket parses back to `ds`.
proof fn lemma_parse_items_exact(ds: Seq<Seq<char>>, s: Seq<char>, i: int)
    requires
        0 <= i,
        i + quoted_items(ds).len() < s.len(),
        s.subrange(i, i + quoted_items(ds).len()) == quoted_items(ds),
        s[i + quoted_items(ds).len()] == ']',
    ensures
        parse_items(s, i) == Some((ds, i + quoted_items(ds).len() + 1)),
    decreases ds.len(),
{
    reveal_strlit(", ");
    if ds.len() == 0 {
        assert(quoted_items(ds) == Seq::<char>::empty());
        assert(ds =~= Seq::<Seq<char>>::empty());
    } else if ds.len() == 1 {
        assert(quoted_items(ds) == quoted(ds[0]));
        lemma_parse_quoted_exact(ds[0], s, i);
        assert(s[i] == '"');
        assert(seq![ds[0]] =~= ds);
    } else {
        lemma_quoted_items_cons(ds);
        let rest = ds.drop_first();
        let q0 = quoted(ds[0]);
        let qr = quoted_items(rest);
        assert(quoted_items(ds) == (q0 + ", "@) + qr);
        lemma_region_split(s, i, q0 + ", "@, qr);
        lemma_region_split(s, i, q0, ", "@);
        lemma_parse_quoted_exact(ds[0], s, i);
        assert(s[i] == '"');
        let j = i + q0.len() as int;
        lemma_region_char(s, j, ", "@, 0);
        lemma_region_char(s, j, ", "@, 1);
        assert(s[j] == ',');
        assert(expect(s, j, ", "@) == Some(j + 2));
        assert(s[j + 2 + qr.len()] == ']');
        lemma_parse_items_exact(rest, s, j + 2);
        assert(seq![ds[0]] + rest =~= ds);
        assert(parse_items(s, i) == Some((ds, i + quoted_items(ds).len() + 1)));
    }
}

/// Joining two adjacent regions: if `s` holds `a` at `i` and `b` right
/// after, it holds `a + b` at `i`.
proof fn lemma_region_join(s: Seq<char>, i: int, a: Seq<char>, b: Seq<char>)
    requires
        0 <= i,
        i + a.len() + b.len() <= s.len(),
        s.subrange(i, i + a.len()) == a,
        s.subrange(i + a.len(), i + a.len() + b.len()) == b,
    ensures
        s.subrange(i, i + a.len() + b.len()) == a + b,
{
    assert forall|k: int|
        0 <= k < a.len() + b.len() implies s.subrange(i, i + a.len() + b.len())[k] == (a + b)[k] by {
        assert(s.subrange(i, i + a.len() + b.len())[k] == s[i + k]);
        if k < a.len() {
            assert(s.subrange(i, i + a.len() as int)[k] == s[i + k]);
        } else {
            assert(s.subrange(i + a.len(), i + a.len() + b.len())[k - a.len()] == s[i + k]);
        }
    }
    assert(s.subrange(i, i + a.len() + b.len()) =~= a + b);
}

/// Where each piece of a serialized record stands in the text: the labels,
/// the three quoted values, the list, the closing bracket and the final
/// newline, at their fixed offsets.
#[verifier::rlimit(100)]
#[verifier::spinoff_prover]
proof fn lemma_doc_regions(s: Seq<char>, qn: Seq<char>, qv: Seq<char>, qt: Seq<char>, qd: Seq<char>)
    requires
        s == "name = "@ + qn + "\n"@ + "version = "@ + qv + "\n"@ + "target = "@ + qt + "\n"@
            + "depends = ["@ + qd + "]\n"@,
    ensures
        s.len() == 42 + qn.len() + qv.len() + qt.len() + qd.len(),
        s.subrange(0, 7) == "name = "@,
        s.subrange(7, 7 + qn.len() as int) == qn,
        s.subrange(7 + qn.len() as int, 18 + qn.len() as int) == "\nversion = "@,
        s.subrange(18 + qn.len() as int, 18 + qn.len() + qv.len() as int) == qv,
        s.subrange(18 + qn.len() + qv.len() as int, 28 + qn.len() + qv.len() as int) == "\ntarget = "@,
        s.subrange(28 + qn.len() + qv.len() as int, 28 + qn.len() + qv.len() + qt.len() as int) == qt,
        s.subrange(
            28 + qn.len() + qv.len() + qt.len() as int,
            40 + qn.len() + qv.len() + qt.len() as int,
        ) == "\ndepends = ["@,
        s.subrange(
            40 + qn.len() + qv.len() + qt.len() as int,
            40 + qn.len() + qv.len() + qt.len() + qd.len() as int,
        ) == qd,
        s[40 + qn.len() + qv.len() + qt.len() + qd.len() as int] == ']',
        s.subrange(
            41 + qn.len() + qv.len() + qt.len() + qd.len() as int,
            42 + qn.len() + qv.len() + qt.len() + qd.len() as int,
        ) == "\n"@,
{
    reveal_strlit("name = ");
    reveal_strlit("version = ");
    reveal_strlit("target = ");
    reveal_strlit("depends = [");
    reveal_strlit("\n");
    reveal_strlit("]\n");
    reveal_strlit("\nversion = ");
    reveal_strlit("\ntarget = ");
    reveal_strlit("\ndepends = [");
    let x11 = "name = "@ + qn + "\n"@ + "version = "@ + qv + "\n"@ + "target = "@ + qt + "\n"@
        + "depends = ["@ + qd;
    let x10 = "name = "@ + qn + "\n"@ + "version = "@ + qv + "\n"@ + "target = "@ + qt + "\n"@
        + "depends = ["@;
    let x9 = "name = "@ + qn + "\n"@ + "version = "@ + qv + "\n"@ + "target = "@ + qt + "\n"@;
    let x8 = "name = "@ + qn + "\n"@ + "version = "@ + qv + "\n"@ + "target = "@ + qt;
    let x7 = "name = "@ + qn + "\n"@ + "version = "@ + qv + "\n"@ + "target = "@;
    let x6 = "name = "@ + qn + "\n"@ + "version = "@ + qv + "\n"@;
    let x5 = "name = "@ + qn + "\n"@ + "version = "@ + qv;
    let x4 = "name = "@ + qn + "\n"@ + "version = "@;
    let x3 = "name = "@ + qn + "\n"@;
    let x2 = "name = "@ + qn;
    let x1 = "name = "@;
    assert(s.subrange(0, s.len() as int) =~= s);
    lemma_region_split(s, 0, x11, "]\n"@);
    lemma_region_split(s, 0, x10, qd);
    lemma_region_split(s, 0, x9, "depends = ["@);
    lemma_region_split(s, 0, x8, "\n"@);
    lemma_region_split(s, 0, x7, qt);
    lemma_region_split(s, 0, x6, "target = "@);
    lemma_region_split(s, 0, x5, "\n"@);
    lemma_region_split(s, 0, x4, qv);
    lemma_region_split(s, 0, x3, "version = "@);
    lemma_region_split(s, 0, x2, "\n"@);
    lemma_region_split(s, 0, x1, qn);
    lemma_region_join(s, x2.len() as int, "\n"@, "version = "@);
    assert("\n"@ + "version = "@ =~= "\nversion = "@);
    lemma_region_join(s, x5.len() as int, "\n"@, "target = "@);
    assert("\n"@ + "target = "@ =~= "\ntarget = "@);
    lemma_region_join(s, x8.len() as int, "\n"@, "depends = ["@);
    assert("\n"@ + "depends = ["@ =~= "\ndepends = ["@);
    assert("]\n"@ =~= seq![']'] + "\n"@);
    lemma_region_split(s, x11.len() as int, seq![']'], "\n"@);
    lemma_region_char(s, x11.len() as int, seq![']'], 0);
}

/// Law: serializing a package record and parsing the text back gives
/// exactly the record, for every record.
#[verifier::rlimit(100)]
#[verifier::spinoff_prover]
pub proof fn lemma_meta_round_trip(
    name: Seq<char>,
    version: Seq<char>,
    target: Seq<char>,
    depends: Seq<Seq<char>>,
)
    ensures
        parse_meta_doc(meta_doc(name, version, target, depends)) == Some(
            MetaView { name, version, target, depends },
        ),
{
    reveal_strlit("name = ");
    reveal_strlit("\n");
    reveal_strlit("\nversion = ");
    reveal_strlit("\ntarget = ");
    reveal_strlit("\ndepends = [");
    let s = meta_doc(name, version, target, depends);
    let qn = quoted(name);
    let qv = quoted(version);
    let qt = quoted(target);
    let qd = quoted_items(depends);
    lemma_doc_regions(s, qn, qv, qt, qd);
    let o2 = 7 + qn.len() as int;
    let o3 = 18 + qn.len() as int;
    let o4 = o3 + qv.len();
    let o5 = 28 + qn.len() + qv.len() as int;
    let o6 = o5 + qt.len();
    let o7 = 40 + qn.len() + qv.len() + qt.len() as int;
    let o8 = o7 + qd.len();
    assert(expect(s, 0, "name = "@) == Some(7int));
    lemma_parse_quoted_exact(name, s, 7);
    assert(parse_quoted(s, 7) == Some((name, o2)));
    assert(expect(s, o2, "\nversion = "@) == Some(o3));
    lemma_parse_quoted_exact(version, s, o3);
    assert(parse_quoted(s, o3) == Some((version, o4)));
    assert(expect(s, o4, "\ntarget = "@) == Some(o5));
    lemma_parse_quoted_exact(target, s, o5);
    assert(parse_quoted(s, o5) == Some((target, o6)));
    assert(expect(s, o6, "\ndepends = ["@) == Some(o7));
    lemma_parse_items_exact(depends, s, o7);
    assert(parse_items(s, o7) == Some((depends, o8 + 1)));
    assert(expect(s, o8 + 1, "\n"@) == Some(o8 + 2));
    assert(o8 + 2 == s.len());
}

impl PackageMeta {
    /// Parses a manifest text back into its record.  Exactly the texts
    /// [`meta_doc`] writes are accepted — as [`parse_meta_doc`] says —
    /// and parsing a serialized record gives the record back
    /// ([`lemma_meta_round_trip`]).
    pub fn from_toml(text: &str) -> (r: Option<PackageMeta>)
        ensures
            match r {
                Some(m) => parse_meta_doc(text@) == Some(m@),
                None => parse_meta_doc(text@) is None,
            },
    {
        let i1 = match expect_lit(text, 0, "name = ") {
            Some(i) => i,
            None => {
                return None;
            },
        };
        let (name, i2) = match scan_quoted(text, i1) {
            Some(p) => p,
            None => {
                return None;
            },
        };
        proof {
            lemma_parse_string_body_bounds(text@, i1 + 1);
        }
        let i3 = match expect_lit(text, i2, "\nversion = ") {
            Some(i) => i,
            None => {
                return None;
            },
        };
        let (version, i4) = match scan_quoted(text, i3) {
            Some(p) => p,
            None => {
                return None;
            },
        };
        proof {
            lemma_parse_string_body_bounds(text@, i3 + 1);
        }
        let i5 = match expect_lit(text, i4, "\ntarget = ") {
            Some(i) => i,
            None => {
                return None;
            },
        };
        let (target, i6) = match scan_quoted(text, i5) {
            Some(p) => p,
            None => {
                return None;
            },
        };
        proof {
            lemma_parse_string_body_bounds(text@, i5 + 1);
        }
        let i7 = match expect_lit(text, i6, "\ndepends = [") {
            Some(i) => i,
            None => {
                return None;
            },
        };
        let (depends, i8) = match scan_items(text, i7) {
            Some(p) => p,
            None => {
                return None;
            },
        };
        let i9 = match expect_lit(text, i8, "\n") {
            Some(i) => i,
            None => {
                return None;
            },
        };
        if i9 == text.unicode_len() {
            Some(PackageMeta { name, version, target, depends })
        } else {
            None
        }
    }
}

/// Parses a bare key from `i`: the characters before the separating space.
/// `None` when a newline or the end of the text comes first.
pub open spec fn parse_key(s: Seq<char>, i: int) -> Option<(Seq<char>, int)>
    decreases s.len() - i when 0 <= i <= s.len()
{
    if i >= s.len() {
        None
    } else if s[i] == ' ' {
        Some((Seq::empty(), i))
    } else if s[i] == '\n' {
        None
    } else {
        match parse_key(s, i + 1) {
            None => None,
            Some((k, j)) => Some((seq![s[i]] + k, j)),
        }
    }
}

/// A parsed key ends at or after where it began, within the text.
proof fn lemma_parse_key_bounds(s: Seq<char>, i: int)
    requires
        0 <= i <= s.len(),
    ensures
        parse_key(s, i) matches Some(p) ==> i <= p.1 <= s.len(),
    decreases s.len() - i,
{
    if i < s.len() && s[i] != ' ' && s[i] != '\n' {
        lemma_parse_key_bounds(s, i + 1);
    }
}

/// Parses an entry's key at `i`: quoted when it stands in quotes, bare
/// otherwise.
pub open spec fn parse_entry_key(s: Seq<char>, i: int) -> Option<(Seq<char>, int)> {
    if 0 <= i < s.len() && s[i] == '"' {
        parse_quoted(s, i)
    } else {
        parse_key(s, i)
    }
}

/// Parses index entries from `i` to the end of the text: one
/// `key = "value"` line each, the key bare or quoted.
pub open spec fn parse_entries(s: Seq<char>, i: int) -> Option<Seq<(Seq<char>, Seq<char>)>>
    decreases s.len() - i when 0 <= i <= s.len() via parse_entries_decreases
{
    if i == s.len() {
        Some(Seq::empty())
    } else {
        match parse_entry_key(s, i) {
            None => None,
            Some((k, j)) => match expect(s, j, " = "@) {
                None => None,
                Some(j2) => match parse_quoted(s, j2) {
                    None => None,
                    Some((v, j3)) => match expect(s, j3, "\n"@) {
                        None => None,
                        Some(j4) => match parse_entries(s, j4) {
                            None => None,
                            Some(rest) => Some(seq![(k, v)] + rest),
                        },
                    },
                },
            },
        }
    }
}

#[via_fn]
proof fn parse_entries_decreases(s: Seq<char>, i: int) {
    if i != s.len() {
        lemma_parse_key_bounds(s, i);
        if i < s.len() && s[i] == '"' && parse_quoted(s, i) is Some {
            lemma_parse_string_body_bounds(s, i + 1);
        }
        match parse_entry_key(s, i) {
            Some((k, j)) => match expect(s, j, " = "@) {
                Some(j2) => {
                    if parse_quoted(s, j2) is Some {
                        lemma_parse_string_body_bounds(s, j2 + 1);
                    }
                },
                None => {},
            },
            None => {},
        }
    }
}

/// The index a text parses to, when the whole text is exactly a
/// `[packages]` header followed by entry lines, as [`list_doc`] writes
/// them.
pub open spec fn parse_list_doc(s: Seq<char>) -> Option<Seq<(Seq<char>, Seq<char>)>> {
    match expect(s, 0, "[packages]\n"@) {
        None => None,
        Some(i) => parse_entries(s, i),
    }
}

/// Parses a bare key, as [`parse_key`] says.
fn scan_key(s: &str, i: usize) -> (r: Option<(String, usize)>)
    requires
        i <= s@.len(),
    ensures
        match r {
            Some(p) => parse_key(s@, i as int) == Some((p.0@, p.1 as int)),
            None => parse_key(s@, i as int) is None,
        },
    decreases s@.len() - i,
{
    let n: usize = s.unicode_len();
    if i >= n {
        return None;
    }
    let c = s.get_char(i);
    if c == ' ' {
        return Some((String::new(), i));
    }
    if c == '\n' {
        return None;
    }
    match scan_key(s, i + 1) {
        None => None,
        Some((k, j)) => {
            let mut v = String::new();
            push_char(&mut v, c);
            v.append(k.as_str());
            proof {
                assert(v@ =~= seq![s@[i as int]] + k@);
            }
            Some((v, j))
        },
    }
}

/// Parses an entry's key, quoted or bare, as [`parse_entry_key`] says.
fn scan_entry_key(s: &str, i: usize) -> (r: Option<(String, usize)>)
    requires
        i <= s@.len(),
    ensures
        match r {
            Some(p) => parse_entry_key(s@, i as int) == Some((p.0@, p.1 as int)),
            None => parse_entry_key(s@, i as int) is None,
        },
{
    let n: usize = s.unicode_len();
    if i < n && s.get_char(i) == '"' {
        scan_quoted(s, i)
    } else {
        scan_key(s, i)
    }
}

/// Parses index entries to the end of the text, as [`parse_entries`] says.
fn scan_entries(s: &str, i: usize) -> (r: Option<Vec<(String, String)>>)
    requires
        i <= s@.len(),
    ensures
        match r {
            Some(es) => parse_entries(s@, i as int) == Some(es.deep_view()),
            None => parse_entries(s@, i as int) is None,
        },
    decreases s@.len() - i,
{
    let n: usize = s.unicode_len();
    if i == n {
        let empty: Vec<(String, String)> = Vec::new();
        proof {
            assert(empty.deep_view() =~= Seq::<(Seq<char>, Seq<char>)>::empty());
        }
        return Some(empty);
    }
    let (k, j) = match scan_entry_key(s, i) {
        Some(p) => p,
        None => {
            return None;
        },
    };
    proof {
        lemma_parse_key_bounds(s@, i as int);
        if s@[i as int] == '"' {
            lemma_parse_string_body_bounds(s@, i + 1);
        }
    }
    let j2 = match expect_lit(s, j, " = ") {
        Some(p) => p,
        None => {
            return None;
        },
    };
    let (v, j3) = match scan_quoted(s, j2) {
        Some(p) => p,
        None => {
            return None;
        },
    };
    proof {
        lemma_parse_string_body_bounds(s@, j2 + 1);
    }
    let j4 = match expect_lit(s, j3, "\n") {
        Some(p) => p,
        None => {
            return None;
        },
    };
    match scan_entries(s, j4) {
        None => None,
        Some(rest) => {
            let ghost gk = k@;
            let ghost gv = v@;
            let mut out: Vec<(String, String)> = Vec::new();
            out.push((k, v));
            let mut x: usize = 0;
            while x < rest.len()
                invariant
                    x <= rest@.len(),
                    out@.len() == x + 1,
                    out@[0].0@ == gk,
                    out@[0].1@ == gv,
                    forall|y: int|
                        0 <= y < x ==> out@[y + 1].0@ == rest@[y].0@ && out@[y + 1].1@
                            == rest@[y].1@,
                decreases rest@.len() - x,
            {
                let entry = &rest[x];
                out.push((entry.0.clone(), entry.1.clone()));
                x = x + 1;
            }
            proof {
                assert(out.deep_view() =~= seq![(gk, gv)] + rest.deep_view());
            }
            Some(out)
        },
    }
}

impl PackageMetaList {
    /// Parses an index text back into its entries.  Exactly the texts
    /// [`list_doc`] writes are accepted — as [`parse_list_doc`] says — and
    /// parsing a serialized index gives the index back
    /// ([`lemma_list_round_trip`]).
    pub fn from_toml(text: &str) -> (r: Option<PackageMetaList>)
        ensures
            match r {
                Some(l) => parse_list_doc(text@) == Some(l.packages.deep_view()),
                None => parse_list_doc(text@) is None,
            },
    {
        match expect_lit(text, 0, "[packages]\n") {
            None => None,
            Some(i) => match scan_entries(text, i) {
                None => None,
                Some(packages) => Some(PackageMetaList { packages }),
            },
        }
    }
}

/// One entry line of the index: the key, bare or quoted, then the quoted
/// version.
pub open spec fn entry_line(e: (Seq<char>, Seq<char>)) -> Seq<char> {
    key_text(e.0) + " = "@ + quoted(e.1) + "\n"@
}

/// The entry lines are the first entry's line, then the rest.
proof fn lemma_list_entries_cons(ps: Seq<(Seq<char>, Seq<char>)>)
    requires
        ps.len() >= 1,
    ensures
        list_entries(ps) == entry_line(ps[0]) + list_entries(ps.drop_first()),
    decreases ps.len(),
{
    if ps.len() == 1 {
        assert(ps.drop_last() =~= Seq::<(Seq<char>, Seq<char>)>::empty());
        assert(ps.drop_first() =~= Seq::<(Seq<char>, Seq<char>)>::empty());
        assert(list_entries(Seq::<(Seq<char>, Seq<char>)>::empty())
            == Seq::<char>::empty());
        assert(list_entries(ps) == list_entries(ps.drop_last()) + key_text(ps.last().0) + " = "@
            + quoted(ps.last().1) + "\n"@);
        assert(ps.last() == ps[0]);
        assert(list_entries(ps) =~= entry_line(ps[0]) + list_entries(ps.drop_first()));
    } else {
        let ps0 = ps.drop_last();
        lemma_list_entries_cons(ps0);
        assert(ps0[0] == ps[0]);
        assert(ps0.drop_first() =~= ps.drop_first().drop_last());
        assert(ps.drop_first().last() == ps.last());
        assert(list_entries(ps) == list_entries(ps0) + key_text(ps.last().0) + " = "@ + quoted(
            ps.last().1,
        ) + "\n"@);
        assert(list_entries(ps.drop_first()) == list_entries(ps.drop_first().drop_last())
            + key_text(ps.drop_first().last().0) + " = "@ + quoted(ps.drop_first().last().1)
            + "\n"@);
        assert(list_entries(ps) =~= entry_line(ps[0]) + list_entries(ps.drop_first()));
    }
}

/// Parsing inverts a bare-written key: a key without space or newline,
/// followed by the separator's space, parses back to itself.
proof fn lemma_parse_key_exact(k: Seq<char>, s: Seq<char>, i: int)
    requires
        0 <= i,
        forall|j: int| 0 <= j < k.len() ==> k[j] != ' ' && k[j] != '\n',
        i + k.len() < s.len(),
        s.subrange(i, i + k.len()) == k,
        s[i + k.len()] == ' ',
    ensures
        parse_key(s, i) == Some((k, i + k.len())),
    decreases k.len(),
{
    if k.len() == 0 {
        assert(k =~= Seq::<char>::empty());
    } else {
        let c = k[0];
        let y = k.drop_first();
        assert(seq![c] + y =~= k);
        lemma_region_char(s, i, k, 0);
        assert(s[i] == c);
        assert(c != ' ' && c != '\n');
        assert(forall|j: int| 0 <= j < y.len() ==> y[j] != ' ' && y[j] != '\n') by {
            assert(forall|j: int| 0 <= j < y.len() ==> #[trigger] y[j] == k[j + 1]);
        }
        assert(s.subrange(i + 1, i + 1 + y.len()) =~= y) by {
            assert forall|m: int| 0 <= m < y.len() implies s.subrange(
                i + 1,
                i + 1 + y.len() as int,
            )[m] == y[m] by {
                assert(s.subrange(i + 1, i + 1 + y.len() as int)[m] == s[i + 1 + m]);
                assert(s.subrange(i, i + k.len() as int)[1 + m] == s[i + 1 + m]);
                assert(k[1 + m] == y[m]);
            }
        }
        lemma_parse_key_exact(y, s, i + 1);
        assert(parse_key(s, i) == Some((seq![c] + y, i + k.len())));
    }
}

/// Parsing inverts the entry lines: a region holding exactly
/// `list_entries(ps)` that runs to the end of the text parses back to
/// `ps`.
proof fn lemma_parse_entries_exact(ps: Seq<(Seq<char>, Seq<char>)>, s: Seq<char>, i: int)
    requires
        0 <= i,
        i + list_entries(ps).len() == s.len(),
        s.subrange(i, i + list_entries(ps).len()) == list_entries(ps),
    ensures
        parse_entries(s, i) == Some(ps),
    decreases ps.len(),
{
    reveal_strlit(" = ");
    reveal_strlit("\n");
    if ps.len() == 0 {
        assert(list_entries(ps) == Seq::<char>::empty());
        assert(ps =~= Seq::<(Seq<char>, Seq<char>)>::empty());
    } else {
        lemma_list_entries_cons(ps);
        let k = ps[0].0;
        let kt = key_text(k);
        let q = quoted(ps[0].1);
        let rest = ps.drop_first();
        assert(entry_line(ps[0]) == ((kt + " = "@) + q) + "\n"@);
        assert(list_entries(ps) == (((kt + " = "@) + q) + "\n"@) + list_entries(rest));
        lemma_region_split(s, i, ((kt + " = "@) + q) + "\n"@, list_entries(rest));
        lemma_region_split(s, i, (kt + " = "@) + q, "\n"@);
        lemma_region_split(s, i, kt + " = "@, q);
        lemma_region_split(s, i, kt, " = "@);
        let jk = i + kt.len() as int;
        lemma_region_char(s, jk, " = "@, 0);
        assert(s[jk] == ' ');
        if key_is_bare(k) {
            assert(kt == k);
            lemma_region_char(s, i, k, 0);
            assert(s[i] == k[0]);
            assert(bare_char(k[0]));
            assert(k[0] != '"');
            assert(forall|j: int| 0 <= j < k.len() ==> k[j] != ' ' && k[j] != '\n') by {
                assert(forall|j: int| 0 <= j < k.len() ==> bare_char(#[trigger] k[j]));
            }
            lemma_parse_key_exact(k, s, i);
            assert(parse_entry_key(s, i) == Some((k, jk)));
        } else {
            assert(kt == quoted(k));
            lemma_parse_quoted_exact(k, s, i);
            assert(s[i] == '"');
            assert(parse_entry_key(s, i) == Some((k, jk)));
        }
        assert(expect(s, jk, " = "@) == Some(jk + 3));
        lemma_parse_quoted_exact(ps[0].1, s, jk + 3);
        let jq = jk + 3 + q.len();
        assert(expect(s, jq, "\n"@) == Some(jq + 1));
        lemma_parse_entries_exact(rest, s, jq + 1);
        assert(i != s.len());
        assert(seq![(k, ps[0].1)] + rest =~= ps);
        assert(parse_entries(s, i) == Some(ps));
    }
}

/// Law: serializing a package index and parsing the text back gives
/// exactly the index, for every index — a key that cannot stand bare is
/// written quoted, so none is lost.
pub proof fn lemma_list_round_trip(ps: Seq<(Seq<char>, Seq<char>)>)
    ensures
        parse_list_doc(list_doc(ps)) == Some(ps),
{
    reveal_strlit("[packages]\n");
    let s = list_doc(ps);
    assert(s.subrange(0, s.len() as int) =~= s);
    lemma_region_split(s, 0, "[packages]\n"@, list_entries(ps));
    assert(expect(s, 0, "[packages]\n"@) == Some(11int));
    lemma_parse_entries_exact(ps, s, 11);
}

} // verus!
