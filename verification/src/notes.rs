use vstd::prelude::*;

use crate::datetime::{spec_parse_date, spec_render_date, parse_date, render_date, Date};
use crate::strings::{chars_to_string, str_to_chars};

verus! {

/// Whether `c` is ASCII whitespace (space, tab, line feed, vertical tab,
/// form feed, carriage return). Trimming in this module is over this set.
pub open spec fn is_ws(c: char) -> bool {
    c == ' ' || c == '\t' || c == '\n' || c == '\u{b}' || c == '\u{c}' || c == '\r'
}

pub open spec fn spec_trim_front(s: Seq<char>) -> Seq<char>
    decreases s.len(),
{
    if s.len() > 0 && is_ws(s[0]) {
        spec_trim_front(s.drop_first())
    } else {
        s
    }
}

pub open spec fn spec_trim_back(s: Seq<char>) -> Seq<char>
    decreases s.len(),
{
    if s.len() > 0 && is_ws(s.last()) {
        spec_trim_back(s.drop_last())
    } else {
        s
    }
}

/// `s` with ASCII whitespace removed from both ends.
pub open spec fn spec_trim(s: Seq<char>) -> Seq<char> {
    spec_trim_back(spec_trim_front(s))
}

/// The first position at or after `i` where character `c` occurs in `s`;
/// `s.len()` when there is none.
pub open spec fn find_char(s: Seq<char>, i: nat, c: char) -> nat
    decreases s.len() - i,
{
    if i >= s.len() {
        s.len() as nat
    } else if s[i as int] == c {
        i
    } else {
        find_char(s, i + 1, c)
    }
}

/// Whether a delimiter line — a line consisting exactly of `---` — starts
/// at position `j` of `s`: three hyphens bounded by the ends of the text or
/// by line feeds. A `---` in the middle of a line is ordinary text.
pub open spec fn delim_line_at(s: Seq<char>, j: int) -> bool {
    &&& 0 <= j
    &&& j + 3 <= s.len()
    &&& s[j] == '-'
    &&& s[j + 1] == '-'
    &&& s[j + 2] == '-'
    &&& (j == 0 || s[j - 1] == '\n')
    &&& (j + 3 == s.len() || s[j + 3] == '\n')
}

/// The first position at or after `i` where a delimiter line starts;
/// `s.len()` when there is none.
pub open spec fn find_delim_line(s: Seq<char>, i: nat) -> nat
    decreases s.len() - i,
{
    if i + 3 > s.len() {
        s.len() as nat
    } else if delim_line_at(s, i as int) {
        i
    } else {
        find_delim_line(s, i + 1)
    }
}

proof fn lemma_find_delim_line_bounds(s: Seq<char>, i: nat)
    requires
        i <= s.len(),
    ensures
        i <= find_delim_line(s, i) <= s.len(),
        find_delim_line(s, i) + 3 <= s.len() ==> delim_line_at(s, find_delim_line(s, i) as int),
    decreases s.len() - i,
{
    if i + 3 <= s.len() && !delim_line_at(s, i as int) {
        lemma_find_delim_line_bounds(s, i + 1);
    }
}

/// The document split at its first two delimiter lines: on the trimmed
/// document, the text strictly between the first two lines consisting
/// exactly of `---`, and the whole remainder after the second (which may
/// itself contain further `---`), each trimmed. `None` when the trimmed
/// document holds fewer than two delimiter lines.
pub open spec fn spec_split_header(s: Seq<char>) -> Option<(Seq<char>, Seq<char>)> {
    let t = spec_trim(s);
    let i = find_delim_line(t, 0);
    if i + 3 > t.len() {
        None
    } else {
        let j = find_delim_line(t, i + 3);
        if j + 3 > t.len() {
            None
        } else {
            Some((spec_trim(t.subrange(i as int + 3, j as int)), spec_trim(t.skip(j as int + 3))))
        }
    }
}

/// The characters of `v` from `a` (inclusive) to `b` (exclusive).
fn copy_range(v: &Vec<char>, a: usize, b: usize) -> (r: Vec<char>)
    requires
        a <= b <= v@.len(),
    ensures
        r@ == v@.subrange(a as int, b as int),
{
    let mut out: Vec<char> = Vec::new();
    let mut i: usize = a;
    while i < b
        invariant
            a <= i <= b <= v@.len(),
            out@ == v@.subrange(a as int, i as int),
        decreases b - i,
    {
        out.push(v[i]);
        i = i + 1;
        assert(out@ =~= v@.subrange(a as int, i as int));
    }
    out
}

fn is_ws_char(c: char) -> (r: bool)
    ensures
        r == is_ws(c),
{
    c == ' ' || c == '\t' || c == '\n' || c == '\u{b}' || c == '\u{c}' || c == '\r'
}

/// Trim ASCII whitespace from both ends, per [`spec_trim`].
fn trim_chars(v: &Vec<char>) -> (r: Vec<char>)
    ensures
        r@ == spec_trim(v@),
{
    let n = v.len();
    assert(v@.skip(0) =~= v@);
    let mut a: usize = 0;
    while a < n && is_ws_char(v[a])
        invariant
            a <= n,
            n == v@.len(),
            spec_trim_front(v@) == spec_trim_front(v@.skip(a as int)),
        decreases n - a,
    {
        assert(v@.skip(a as int).drop_first() =~= v@.skip(a + 1));
        a = a + 1;
    }
    assert(spec_trim_front(v@) == v@.skip(a as int)) by {
        assert(v@.skip(a as int).len() == n - a);
        if a < n {
            assert(v@.skip(a as int)[0] == v@[a as int]);
        }
    };
    assert(v@.skip(a as int).take(n - a as int) =~= v@.skip(a as int));
    let mut b: usize = n;
    while b > a && is_ws_char(v[b - 1])
        invariant
            a <= b <= n,
            n == v@.len(),
            spec_trim_front(v@) == v@.skip(a as int),
            spec_trim_back(v@.skip(a as int)) == spec_trim_back(
                v@.skip(a as int).take(b - a as int),
            ),
        decreases b,
    {
        assert(v@.skip(a as int).take(b - a as int).drop_last() =~= v@.skip(a as int).take(
            b - 1 - a as int,
        ));
        assert(v@.skip(a as int).take(b - a as int).last() == v@[b - 1 as int]);
        b = b - 1;
    }
    let ghost tf = v@.skip(a as int);
    assert(spec_trim_back(tf.take(b - a as int)) == tf.take(b - a as int)) by {
        if b > a {
            assert(tf.take(b - a as int).last() == v@[b - 1 as int]);
        }
    };
    let r = copy_range(v, a, b);
    assert(r@ =~= tf.take(b - a as int));
    r
}

/// The first position at or after `from` where `c` occurs, per
/// [`find_char`].
fn find_char_from(v: &Vec<char>, from: usize, c: char) -> (r: usize)
    requires
        from <= v@.len(),
    ensures
        r == find_char(v@, from as nat, c),
        from <= r <= v@.len(),
        r < v@.len() ==> v@[r as int] == c,
{
    let n = v.len();
    let mut i: usize = from;
    while i < n
        invariant
            from <= i <= n,
            n == v@.len(),
            find_char(v@, from as nat, c) == find_char(v@, i as nat, c),
        decreases n - i,
    {
        if v[i] == c {
            return i;
        }
        i = i + 1;
    }
    n
}

/// The first position at or after `from` where a delimiter line starts,
/// per [`find_delim_line`].
fn find_delim_line_from(v: &Vec<char>, from: usize) -> (r: usize)
    requires
        from <= v@.len(),
    ensures
        r == find_delim_line(v@, from as nat),
        from <= r <= v@.len(),
{
    let n = v.len();
    let mut i: usize = from;
    while i < n && n - i >= 3
        invariant
            from <= i <= n,
            n == v@.len(),
            find_delim_line(v@, from as nat) == find_delim_line(v@, i as nat),
        decreases n - i,
    {
        let hit = v[i] == '-' && v[i + 1] == '-' && v[i + 2] == '-' && (i == 0 || v[i - 1]
            == '\n') && (i + 3 == n || v[i + 3] == '\n');
        assert(hit == delim_line_at(v@, i as int));
        if hit {
            return i;
        }
        i = i + 1;
    }
    proof {
        lemma_find_delim_line_bounds(v@, i as nat);
    }
    n
}

/// Split a document at its first two delimiter lines, per
/// [`spec_split_header`]: the header text between them and the whole body
/// after them, both trimmed; `None` when the trimmed document holds fewer
/// than two lines consisting exactly of `---`, in which case the whole
/// document is undifferentiated content.
pub fn split_yaml_header(s: &str) -> (r: Option<(String, String)>)
    ensures
        match r {
            Some(p) => spec_split_header(s@) == Some((p.0@, p.1@)),
            None => spec_split_header(s@) is None,
        },
{
    let chars = str_to_chars(s);
    let t = trim_chars(&chars);
    let tn = t.len();
    let i = find_delim_line_from(&t, 0);
    if tn - i < 3 {
        return None;
    }
    let j = find_delim_line_from(&t, i + 3);
    if tn - j < 3 {
        return None;
    }
    let header_part = copy_range(&t, i + 3, j);
    let body_part = copy_range(&t, j + 3, tn);
    let header = trim_chars(&header_part);
    let body = trim_chars(&body_part);
    Some((chars_to_string(&header), chars_to_string(&body)))
}

} // verus!

verus! {

/// Structured metadata at the top of a notes document: a title, a calendar
/// date, a keyword list, and unrecognized `key: value` lines retained in
/// order.
pub struct YamlMeta {
    pub title: String,
    pub date: Date,
    pub keywords: Vec<String>,
    pub unknown_fields: Vec<(String, String)>,
}

/// The mathematical content of a [`YamlMeta`].
pub struct YamlMetaView {
    pub title: Seq<char>,
    pub date: Date,
    pub keywords: Seq<Seq<char>>,
    pub unknown_fields: Seq<(Seq<char>, Seq<char>)>,
}

impl View for YamlMeta {
    type V = YamlMetaView;

    open spec fn view(&self) -> YamlMetaView {
        YamlMetaView {
            title: self.title@,
            date: self.date,
            keywords: crate::task::strs(self.keywords@),
            unknown_fields: crate::task::str_pairs(self.unknown_fields@),
        }
    }
}

impl YamlMetaView {
    /// A header is well formed when its date is a real calendar date.
    pub open spec fn wf(self) -> bool {
        self.date.wf()
    }
}

impl YamlMeta {
    /// A fresh header with the given title and date, no keywords and no
    /// unrecognized fields.
    pub fn new(title: &str, date: Date) -> (r: YamlMeta)
        ensures
            r@.title == title@,
            r@.date == date,
            r@.keywords == Seq::<Seq<char>>::empty(),
            r@.unknown_fields == Seq::<(Seq<char>, Seq<char>)>::empty(),
    {
        let r = YamlMeta {
            title: String::from_str(title),
            date,
            keywords: Vec::new(),
            unknown_fields: Vec::new(),
        };
        assert(r@.keywords =~= Seq::<Seq<char>>::empty());
        assert(r@.unknown_fields =~= Seq::<(Seq<char>, Seq<char>)>::empty());
        r
    }
}

/// Whether a header value must be written quoted: an empty value, one with
/// whitespace at either end (the document split trims the header text), or
/// one holding a line feed, a double quote, a backslash or a single quote
/// (the last for the conventional look of quoted prose). Every other value
/// is written bare and reads back verbatim.
pub open spec fn needs_quote(v: Seq<char>) -> bool {
    ||| v.len() == 0
    ||| is_ws(v[0])
    ||| is_ws(v.last())
    ||| exists|j: int|
        0 <= j < v.len() && ((#[trigger] v[j]) == '\n' || v[j] == '"' || v[j] == '\\' || v[j]
            == '\'')
}

/// One value character inside a quoted value: line feeds, double quotes and
/// backslashes get a backslash escape; everything else stands for itself.
pub open spec fn spec_escape_vchar(c: char) -> Seq<char> {
    if c == '\\' {
        seq!['\\', '\\']
    } else if c == '"' {
        seq!['\\', '"']
    } else if c == '\n' {
        seq!['\\', 'n']
    } else {
        seq![c]
    }
}

pub open spec fn spec_escape_vchars(v: Seq<char>) -> Seq<char>
    decreases v.len(),
{
    if v.len() == 0 {
        Seq::empty()
    } else {
        spec_escape_vchar(v[0]) + spec_escape_vchars(v.drop_first())
    }
}

/// Reverse the escaping inside a quoted value: `None` on a dangling or
/// unknown escape, or on a bare double quote (which rendering never
/// produces).
pub open spec fn spec_unescape_vchars(m: Seq<char>) -> Option<Seq<char>>
    decreases m.len(),
{
    if m.len() == 0 {
        Some(Seq::empty())
    } else if m[0] == '\\' {
        if m.len() >= 2 && (m[1] == 'n' || m[1] == '"' || m[1] == '\\') {
            let c = if m[1] == 'n' {
                '\n'
            } else {
                m[1]
            };
            match spec_unescape_vchars(m.skip(2)) {
                Some(r) => Some(seq![c] + r),
                None => None,
            }
        } else {
            None
        }
    } else if m[0] == '"' {
        None
    } else {
        match spec_unescape_vchars(m.drop_first()) {
            Some(r) => Some(seq![m[0]] + r),
            None => None,
        }
    }
}

/// The written form of a header value: quoted and escaped when
/// [`needs_quote`] says so, bare otherwise.
pub open spec fn spec_render_value(v: Seq<char>) -> Seq<char> {
    if needs_quote(v) {
        seq!['"'] + spec_escape_vchars(v) + seq!['"']
    } else {
        v
    }
}

/// Read a written value back: a quoted form is unescaped (`None` when
/// malformed), a bare form stands for itself.
pub open spec fn spec_read_value(t: Seq<char>) -> Option<Seq<char>> {
    if t.len() >= 1 && t[0] == '"' {
        if t.len() >= 2 && t.last() == '"' {
            spec_unescape_vchars(t.subrange(1, t.len() - 1))
        } else {
            None
        }
    } else {
        Some(t)
    }
}

proof fn lemma_escape_append(a: Seq<char>, b: Seq<char>)
    ensures
        spec_escape_vchars(a + b) == spec_escape_vchars(a) + spec_escape_vchars(b),
    decreases a.len(),
{
    if a.len() == 0 {
        assert(a + b =~= b);
        assert(spec_escape_vchars(a) + spec_escape_vchars(b) =~= spec_escape_vchars(b));
    } else {
        assert((a + b).drop_first() =~= a.drop_first() + b);
        assert((a + b)[0] == a[0]);
        lemma_escape_append(a.drop_first(), b);
        assert(spec_escape_vchars(a + b) =~= spec_escape_vchars(a) + spec_escape_vchars(b));
    }
}

proof fn lemma_unescape_escape(v: Seq<char>)
    ensures
        spec_unescape_vchars(spec_escape_vchars(v)) == Some(v),
    decreases v.len(),
{
    let e = spec_escape_vchars(v);
    if v.len() == 0 {
        assert(spec_unescape_vchars(e) == Some(Seq::<char>::empty()));
        assert(v =~= Seq::<char>::empty());
    } else {
        lemma_unescape_escape(v.drop_first());
        let c = v[0];
        if c == '\\' || c == '"' || c == '\n' {
            assert(e[0] == '\\');
            assert(e.skip(2) =~= spec_escape_vchars(v.drop_first()));
            assert(seq![c] + v.drop_first() =~= v);
        } else {
            assert(e[0] == c);
            assert(e.drop_first() =~= spec_escape_vchars(v.drop_first()));
            assert(seq![c] + v.drop_first() =~= v);
        }
    }
}

/// Reading a written value yields the stored value back: rendering and
/// reading are a true inverse pair for every value.
pub proof fn lemma_read_render_value(v: Seq<char>)
    ensures
        spec_read_value(spec_render_value(v)) == Some(v),
{
    if needs_quote(v) {
        let t = spec_render_value(v);
        let e = spec_escape_vchars(v);
        assert(t[0] == '"');
        assert(t.last() == '"');
        assert(t.subrange(1, t.len() - 1) =~= e);
        lemma_unescape_escape(v);
    } else {
        if v.len() > 0 && v[0] == '"' {
            assert(needs_quote(v));
            assert(false);
        }
    }
}

proof fn lemma_escape_no_nl(v: Seq<char>)
    ensures
        forall|j: int|
            0 <= j < spec_escape_vchars(v).len() ==> (#[trigger] spec_escape_vchars(v)[j]) != '\n',
    decreases v.len(),
{
    let e = spec_escape_vchars(v);
    if v.len() > 0 {
        let h = spec_escape_vchar(v[0]);
        lemma_escape_no_nl(v.drop_first());
        assert forall|j: int| 0 <= j < e.len() implies (#[trigger] e[j]) != '\n' by {
            if j < h.len() {
                assert(e[j] == h[j]);
            } else {
                assert(e[j] == spec_escape_vchars(v.drop_first())[j - h.len()]);
            }
        };
    }
}

/// A written value never holds a line feed, so it always fits on its one
/// header line.
pub proof fn lemma_render_value_no_nl(v: Seq<char>)
    ensures
        forall|j: int|
            0 <= j < spec_render_value(v).len() ==> (#[trigger] spec_render_value(v)[j]) != '\n',
{
    let t = spec_render_value(v);
    if needs_quote(v) {
        let e = spec_escape_vchars(v);
        lemma_escape_no_nl(v);
        assert forall|j: int| 0 <= j < t.len() implies (#[trigger] t[j]) != '\n' by {
            if j == 0 || j == t.len() - 1 {
            } else {
                assert(t[j] == e[j - 1]);
            }
        };
    } else {
        assert forall|j: int| 0 <= j < t.len() implies (#[trigger] t[j]) != '\n' by {
            if t[j] == '\n' {
                assert(needs_quote(v));
            }
        };
    }
}

/// The first position at or after `i` where the key separator `: ` occurs;
/// `s.len()` when there is none.
pub open spec fn find_key_sep(s: Seq<char>, i: nat) -> nat
    decreases s.len() - i,
{
    if i + 2 > s.len() {
        s.len() as nat
    } else if s[i as int] == ':' && s[i as int + 1] == ' ' {
        i
    } else {
        find_key_sep(s, i + 1)
    }
}

/// The header text split into lines at every line feed.
pub open spec fn spec_split_lines(s: Seq<char>) -> Seq<Seq<char>>
    decreases s.len(),
{
    let k = find_char(s, 0, '\n');
    if k < s.len() {
        seq![s.take(k as int)] + spec_split_lines(s.skip(k as int + 1))
    } else {
        seq![s]
    }
}

/// The accumulator of the line-by-line header parse: each named field once
/// seen, the unrecognized lines in order, and whether the previous line
/// belonged to the keyword list (so that further `  - ` items may follow).
pub struct MetaAcc {
    pub title: Option<Seq<char>>,
    pub date: Option<Date>,
    pub keywords: Option<Seq<Seq<char>>>,
    pub unknown: Seq<(Seq<char>, Seq<char>)>,
    pub in_list: bool,
}

pub open spec fn empty_meta_acc() -> MetaAcc {
    MetaAcc { title: None, date: None, keywords: None, unknown: Seq::empty(), in_list: false }
}

/// Parse one header line. A `  - ` item extends the open keyword list; a
/// bare `keywords:` opens the list; a `key: value` line sets a named field
/// (title, a strict `YYYY-MM-DD` date, `keywords: []` for the empty list)
/// or is retained as an unrecognized field. Every value is read through
/// [`spec_read_value`], reversing the writer's quoting. A named field seen
/// twice, a malformed quoted value, or a line in no such form makes the
/// whole header unparseable.
pub open spec fn spec_meta_line(line: Seq<char>, acc: MetaAcc) -> Option<MetaAcc> {
    if line.len() >= 4 && line.take(4) == "  - "@ {
        if acc.in_list {
            match (acc.keywords, spec_read_value(line.skip(4))) {
                (Some(ks), Some(item)) => Some(MetaAcc { keywords: Some(ks.push(item)), ..acc }),
                _ => None,
            }
        } else {
            None
        }
    } else if line == "keywords:"@ {
        if acc.keywords is None {
            Some(MetaAcc { keywords: Some(Seq::empty()), in_list: true, ..acc })
        } else {
            None
        }
    } else {
        let k = find_key_sep(line, 0);
        if k + 2 > line.len() {
            None
        } else {
            let key = line.take(k as int);
            let rest = line.skip(k as int + 2);
            if key == "title"@ {
                match (spec_read_value(rest), acc.title) {
                    (Some(t), None) => Some(MetaAcc { title: Some(t), in_list: false, ..acc }),
                    _ => None,
                }
            } else if key == "date"@ {
                match (spec_read_value(rest), acc.date) {
                    (Some(dtext), None) => match spec_parse_date(dtext) {
                        Some(d) => Some(MetaAcc { date: Some(d), in_list: false, ..acc }),
                        None => None,
                    },
                    _ => None,
                }
            } else if key == "keywords"@ {
                if acc.keywords is None && rest == "[]"@ {
                    Some(MetaAcc { keywords: Some(Seq::empty()), in_list: false, ..acc })
                } else {
                    None
                }
            } else {
                match spec_read_value(rest) {
                    Some(v) => Some(
                        MetaAcc { unknown: acc.unknown.push((key, v)), in_list: false, ..acc },
                    ),
                    None => None,
                }
            }
        }
    }
}

pub open spec fn spec_meta_fold(lines: Seq<Seq<char>>) -> Option<MetaAcc>
    decreases lines.len(),
{
    if lines.len() == 0 {
        Some(empty_meta_acc())
    } else {
        match spec_meta_fold(lines.drop_last()) {
            Some(acc) => spec_meta_line(lines.last(), acc),
            None => None,
        }
    }
}

/// A parsed header needs its title, date and keyword list all present.
pub open spec fn spec_meta_finish(acc: MetaAcc) -> Option<YamlMetaView> {
    match (acc.title, acc.date, acc.keywords) {
        (Some(title), Some(date), Some(keywords)) => Some(
            YamlMetaView { title, date, keywords, unknown_fields: acc.unknown },
        ),
        _ => None,
    }
}

/// The strict parse of a header text: its lines folded through
/// [`spec_meta_line`], then checked for the mandatory fields.
pub open spec fn spec_parse_meta(s: Seq<char>) -> Option<YamlMetaView> {
    match spec_meta_fold(spec_split_lines(s)) {
        Some(acc) => spec_meta_finish(acc),
        None => None,
    }
}

} // verus!

verus! {

/// The views of a vector of character vectors.
pub open spec fn line_views(v: Seq<Vec<char>>) -> Seq<Seq<char>> {
    v.map_values(|l: Vec<char>| l@)
}

proof fn lemma_find_char_skip(s: Seq<char>, d: nat, i: nat, c: char)
    requires
        d + i <= s.len(),
    ensures
        find_char(s, d + i, c) == d + find_char(s.skip(d as int), i, c),
    decreases s.len() - d - i,
{
    if d + i < s.len() {
        assert(s.skip(d as int)[i as int] == s[d as int + i]);
        if s[d as int + i] != c {
            lemma_find_char_skip(s, d, i + 1, c);
        }
    }
}

/// Split the header text into lines at every line feed, per
/// [`spec_split_lines`].
fn split_lines(v: &Vec<char>) -> (r: Vec<Vec<char>>)
    ensures
        line_views(r@) == spec_split_lines(v@),
{
    let n = v.len();
    let mut out: Vec<Vec<char>> = Vec::new();
    let mut start: usize = 0;
    assert(v@.skip(0) =~= v@);
    assert(line_views(out@) =~= Seq::<Seq<char>>::empty());
    loop
        invariant_except_break
            start <= n,
            n == v@.len(),
            spec_split_lines(v@) == line_views(out@) + spec_split_lines(v@.skip(start as int)),
        ensures
            line_views(out@) == spec_split_lines(v@),
        decreases n - start,
    {
        let ghost rem = v@.skip(start as int);
        let k = find_char_from(v, start, '\n');
        proof {
            lemma_find_char_skip(v@, start as nat, 0, '\n');
        }
        if k < n {
            let line = copy_range(v, start, k);
            assert(line@ =~= rem.take(k - start as int));
            let ghost prev = out@;
            out.push(line);
            assert(line_views(out@) =~= line_views(prev).push(line@));
            assert(v@.skip(k + 1 as int) =~= rem.skip(k - start + 1));
            start = k + 1;
            assert(spec_split_lines(v@) =~= line_views(out@) + spec_split_lines(
                v@.skip(start as int),
            ));
        } else {
            let line = copy_range(v, start, n);
            assert(line@ =~= rem);
            let ghost prev = out@;
            out.push(line);
            assert(line_views(out@) =~= line_views(prev).push(line@));
            assert(spec_split_lines(rem) =~= seq![rem]);
            assert(line_views(out@) =~= spec_split_lines(v@));
            break;
        }
    }
    out
}

/// Whether a value must be written quoted, per [`needs_quote`].
fn value_needs_quote(v: &Vec<char>) -> (r: bool)
    ensures
        r == needs_quote(v@),
{
    let n = v.len();
    if n == 0 {
        return true;
    }
    if is_ws_char(v[0]) || is_ws_char(v[n - 1]) {
        return true;
    }
    let mut i: usize = 0;
    while i < n
        invariant
            i <= n,
            n == v@.len(),
            forall|j: int|
                0 <= j < i ==> !((#[trigger] v@[j]) == '\n' || v@[j] == '"' || v@[j] == '\\'
                    || v@[j] == '\''),
        decreases n - i,
    {
        let c = v[i];
        if c == '\n' || c == '"' || c == '\\' || c == '\'' {
            return true;
        }
        i = i + 1;
    }
    false
}

/// Escape a value's characters, per [`spec_escape_vchars`].
fn escape_value(v: &Vec<char>) -> (r: Vec<char>)
    ensures
        r@ == spec_escape_vchars(v@),
{
    let n = v.len();
    let mut out: Vec<char> = Vec::new();
    let mut i: usize = 0;
    assert(v@.take(0) =~= Seq::<char>::empty());
    while i < n
        invariant
            i <= n,
            n == v@.len(),
            out@ == spec_escape_vchars(v@.take(i as int)),
        decreases n - i,
    {
        proof {
            lemma_escape_append(v@.take(i as int), seq![v@[i as int]]);
            assert(v@.take(i + 1) =~= v@.take(i as int) + seq![v@[i as int]]);
            assert(seq![v@[i as int]].drop_first() =~= Seq::<char>::empty());
            assert(spec_escape_vchars(Seq::<char>::empty()) == Seq::<char>::empty());
            assert(spec_escape_vchars(seq![v@[i as int]]) == spec_escape_vchar(v@[i as int])
                + spec_escape_vchars(seq![v@[i as int]].drop_first()));
            assert(spec_escape_vchars(seq![v@[i as int]]) =~= spec_escape_vchar(v@[i as int]));
        }
        let c = v[i];
        if c == '\\' {
            out.push('\\');
            out.push('\\');
        } else if c == '"' {
            out.push('\\');
            out.push('"');
        } else if c == '\n' {
            out.push('\\');
            out.push('n');
        } else {
            out.push(c);
        }
        i = i + 1;
        assert(out@ =~= spec_escape_vchars(v@.take(i as int)));
    }
    assert(v@.take(n as int) =~= v@);
    out
}

/// Reverse the escaping inside a quoted value, per
/// [`spec_unescape_vchars`].
fn unescape_value(m: &Vec<char>) -> (r: Option<Vec<char>>)
    ensures
        match r {
            Some(v) => spec_unescape_vchars(m@) == Some(v@),
            None => spec_unescape_vchars(m@) is None,
        },
{
    let n = m.len();
    let mut out: Vec<char> = Vec::new();
    let mut i: usize = 0;
    assert(m@.skip(0) =~= m@);
    while i < n
        invariant
            i <= n,
            n == m@.len(),
            match spec_unescape_vchars(m@.skip(i as int)) {
                Some(rest) => spec_unescape_vchars(m@) == Some(out@ + rest),
                None => spec_unescape_vchars(m@) is None,
            },
        decreases n - i,
    {
        let ghost rem = m@.skip(i as int);
        assert(rem[0] == m@[i as int]);
        let c = m[i];
        if c == '\\' {
            if n - i < 2 {
                assert(rem.len() == 1);
                assert(spec_unescape_vchars(rem) is None);
                return None;
            }
            assert(rem[1] == m@[i + 1]);
            let e = m[i + 1];
            if e == 'n' || e == '"' || e == '\\' {
                let ghost prev = out@;
                let decoded = if e == 'n' {
                    '\n'
                } else {
                    e
                };
                out.push(decoded);
                assert(rem.skip(2) =~= m@.skip(i + 2));
                assert(out@ + spec_unescape_vchars(m@.skip(i + 2))->Some_0 =~= prev + (seq![
                    decoded,
                ] + spec_unescape_vchars(m@.skip(i + 2))->Some_0)) by {
                    if spec_unescape_vchars(m@.skip(i + 2)) is Some {
                    }
                };
                i = i + 2;
            } else {
                assert(spec_unescape_vchars(rem) is None);
                return None;
            }
        } else if c == '"' {
            assert(spec_unescape_vchars(rem) is None);
            return None;
        } else {
            let ghost prev = out@;
            out.push(c);
            assert(rem.drop_first() =~= m@.skip(i + 1));
            assert(out@ + spec_unescape_vchars(m@.skip(i + 1))->Some_0 =~= prev + (seq![c]
                + spec_unescape_vchars(m@.skip(i + 1))->Some_0)) by {
                if spec_unescape_vchars(m@.skip(i + 1)) is Some {
                }
            };
            i = i + 1;
        }
    }
    assert(m@.skip(n as int) =~= Seq::<char>::empty());
    assert(out@ + Seq::<char>::empty() =~= out@);
    Some(out)
}

/// The written form of a value, per [`spec_render_value`].
fn render_value(v: &Vec<char>) -> (r: Vec<char>)
    ensures
        r@ == spec_render_value(v@),
{
    if value_needs_quote(v) {
        let mut out: Vec<char> = Vec::new();
        out.push('"');
        let mut e = escape_value(v);
        out.append(&mut e);
        out.push('"');
        assert(out@ =~= seq!['"'] + spec_escape_vchars(v@) + seq!['"']);
        out
    } else {
        copy_range(v, 0, v.len())
    }
}

/// Read a written value back, per [`spec_read_value`].
fn read_value(t: &Vec<char>) -> (r: Option<Vec<char>>)
    ensures
        match r {
            Some(v) => spec_read_value(t@) == Some(v@),
            None => spec_read_value(t@) is None,
        },
{
    let n = t.len();
    if n >= 1 && t[0] == '"' {
        if n >= 2 && t[n - 1] == '"' {
            let middle = copy_range(t, 1, n - 1);
            unescape_value(&middle)
        } else {
            None
        }
    } else {
        Some(copy_range(t, 0, n))
    }
}

/// The first position at or after `from` where `: ` occurs, per
/// [`find_key_sep`].
fn find_key_sep_from(v: &Vec<char>, from: usize) -> (r: usize)
    requires
        from <= v@.len(),
    ensures
        r == find_key_sep(v@, from as nat),
        from <= r <= v@.len(),
{
    let n = v.len();
    let mut i: usize = from;
    while i < n && n - i >= 2
        invariant
            from <= i <= n,
            n == v@.len(),
            find_key_sep(v@, from as nat) == find_key_sep(v@, i as nat),
        decreases n - i,
    {
        if v[i] == ':' && v[i + 1] == ' ' {
            return i;
        }
        i = i + 1;
    }
    n
}

/// The exec accumulator mirroring [`MetaAcc`].
struct MetaAccX {
    title: Option<String>,
    date: Option<Date>,
    keywords: Option<Vec<String>>,
    unknown: Vec<(String, String)>,
    in_list: bool,
}

spec fn meta_acc_view(a: &MetaAccX) -> MetaAcc {
    MetaAcc {
        title: match a.title {
            Some(ref t) => Some(t@),
            None => None,
        },
        date: a.date,
        keywords: match a.keywords {
            Some(ref ks) => Some(crate::task::strs(ks@)),
            None => None,
        },
        unknown: crate::task::str_pairs(a.unknown@),
        in_list: a.in_list,
    }
}

/// Parse one header line into the accumulator, mirroring
/// [`spec_meta_line`].
fn meta_line(line: &Vec<char>, acc: MetaAccX) -> (r: Option<MetaAccX>)
    ensures
        match r {
            Some(a2) => spec_meta_line(line@, meta_acc_view(&acc)) == Some(meta_acc_view(&a2)),
            None => spec_meta_line(line@, meta_acc_view(&acc)) is None,
        },
{
    let n = line.len();
    let is_item = n >= 4 && line[0] == ' ' && line[1] == ' ' && line[2] == '-' && line[3] == ' ';
    proof {
        reveal_strlit("  - ");
        assert("  - "@.len() == 4);
        if is_item {
            assert(line@.take(4) =~= "  - "@);
        } else if n >= 4 {
            assert(line@.take(4) != "  - "@) by {
                if line@.take(4) == "  - "@ {
                    assert(line@[0] == line@.take(4)[0]);
                    assert(line@[1] == line@.take(4)[1]);
                    assert(line@[2] == line@.take(4)[2]);
                    assert(line@[3] == line@.take(4)[3]);
                    assert(false);
                }
            };
        }
    }
    if is_item {
        if !acc.in_list {
            return None;
        }
        match acc.keywords {
            Some(mut ks) => {
                let raw = copy_range(line, 4, n);
                match read_value(&raw) {
                    Some(item) => {
                        let ghost prev = ks@;
                        let ghost item_view = item@;
                        ks.push(chars_to_string(&item));
                        assert(crate::task::strs(ks@) =~= crate::task::strs(prev).push(item_view));
                        Some(
                            MetaAccX {
                                title: acc.title,
                                date: acc.date,
                                keywords: Some(ks),
                                unknown: acc.unknown,
                                in_list: true,
                            },
                        )
                    },
                    None => None,
                }
            },
            None => None,
        }
    } else if chars_eq_str_vec(line, "keywords:") {
        if acc.keywords.is_none() {
            let ks: Vec<String> = Vec::new();
            assert(crate::task::strs(ks@) =~= Seq::<Seq<char>>::empty());
            Some(
                MetaAccX {
                    title: acc.title,
                    date: acc.date,
                    keywords: Some(ks),
                    unknown: acc.unknown,
                    in_list: true,
                },
            )
        } else {
            None
        }
    } else {
        let k = find_key_sep_from(line, 0);
        if n - k < 2 {
            return None;
        }
        let key = copy_range(line, 0, k);
        let rest = copy_range(line, k + 2, n);
        assert(key@ =~= line@.take(k as int));
        assert(rest@ =~= line@.skip(k as int + 2));
        if chars_eq_str_vec(&key, "title") {
            match (read_value(&rest), &acc.title) {
                (Some(t), None) => Some(
                    MetaAccX {
                        title: Some(chars_to_string(&t)),
                        date: acc.date,
                        keywords: acc.keywords,
                        unknown: acc.unknown,
                        in_list: false,
                    },
                ),
                _ => None,
            }
        } else if chars_eq_str_vec(&key, "date") {
            let dtext = match read_value(&rest) {
                Some(dtext) => dtext,
                None => {
                    return None;
                },
            };
            match (parse_date(&dtext), &acc.date) {
                (Some(d), None) => Some(
                    MetaAccX {
                        title: acc.title,
                        date: Some(d),
                        keywords: acc.keywords,
                        unknown: acc.unknown,
                        in_list: false,
                    },
                ),
                _ => None,
            }
        } else if chars_eq_str_vec(&key, "keywords") {
            if acc.keywords.is_none() && chars_eq_str_vec(&rest, "[]") {
                let ks: Vec<String> = Vec::new();
                assert(crate::task::strs(ks@) =~= Seq::<Seq<char>>::empty());
                Some(
                    MetaAccX {
                        title: acc.title,
                        date: acc.date,
                        keywords: Some(ks),
                        unknown: acc.unknown,
                        in_list: false,
                    },
                )
            } else {
                None
            }
        } else {
            match read_value(&rest) {
                Some(v) => {
                    let mut unknown = acc.unknown;
                    let ghost prev = unknown@;
                    let ghost v_view = v@;
                    unknown.push((chars_to_string(&key), chars_to_string(&v)));
                    assert(crate::task::str_pairs(unknown@) =~= crate::task::str_pairs(prev).push(
                        (line@.take(k as int), v_view),
                    ));
                    Some(
                        MetaAccX {
                            title: acc.title,
                            date: acc.date,
                            keywords: acc.keywords,
                            unknown,
                            in_list: false,
                        },
                    )
                },
                None => None,
            }
        }
    }
}

/// [`chars_eq_str`](crate::strings::chars_eq_str), local shorthand.
fn chars_eq_str_vec(v: &Vec<char>, s: &str) -> (r: bool)
    ensures
        r == (v@ == s@),
{
    crate::strings::chars_eq_str(v, s)
}

impl YamlMeta {
    /// Strictly parse a header text, per [`spec_parse_meta`]: `Some` exactly
    /// when every line is well formed, no named field repeats, and title,
    /// date and keywords are all present.
    pub fn from_str(s: &str) -> (r: Option<YamlMeta>)
        ensures
            match r {
                Some(m) => spec_parse_meta(s@) == Some(m@),
                None => spec_parse_meta(s@) is None,
            },
    {
        let chars = str_to_chars(s);
        let lines = split_lines(&chars);
        let ghost lv = line_views(lines@);
        assert(lv == spec_split_lines(s@));
        let n = lines.len();
        let mut acc = MetaAccX {
            title: None,
            date: None,
            keywords: None,
            unknown: Vec::new(),
            in_list: false,
        };
        assert(lv.take(0) =~= Seq::<Seq<char>>::empty());
        assert(meta_acc_view(&acc) == empty_meta_acc()) by {
            assert(crate::task::str_pairs(acc.unknown@) =~= Seq::<(Seq<char>, Seq<char>)>::empty());
        };
        let mut i: usize = 0;
        while i < n
            invariant
                i <= n,
                n == lines@.len(),
                lv == line_views(lines@),
                lv == spec_split_lines(s@),
                spec_meta_fold(lv.take(i as int)) == Some(meta_acc_view(&acc)),
            decreases n - i,
        {
            assert(lv.take(i + 1).drop_last() =~= lv.take(i as int));
            assert(lv.take(i + 1).last() == lv[i as int]);
            match meta_line(&lines[i], acc) {
                Some(a2) => {
                    acc = a2;
                },
                None => {
                    assert(spec_meta_fold(lv.take(i + 1)) is None);
                    proof {
                        lemma_meta_fold_none_persists(lv, i + 1);
                    }
                    return None;
                },
            }
            i = i + 1;
        }
        assert(lv.take(n as int) =~= lv);
        match (acc.title, acc.date, acc.keywords) {
            (Some(title), Some(date), Some(keywords)) => Some(
                YamlMeta { title, date, keywords, unknown_fields: acc.unknown },
            ),
            _ => None,
        }
    }
}

proof fn lemma_meta_fold_none_persists(lines: Seq<Seq<char>>, i: int)
    requires
        0 <= i <= lines.len(),
        spec_meta_fold(lines.take(i)) is None,
    ensures
        spec_meta_fold(lines) is None,
    decreases lines.len() - i,
{
    if i < lines.len() {
        assert(lines.take(i + 1).drop_last() =~= lines.take(i));
        lemma_meta_fold_none_persists(lines, i + 1);
    } else {
        assert(lines.take(i) =~= lines);
    }
}

} // verus!

verus! {

/// The rendering of the keyword list's items, one `  - ` line each.
pub open spec fn spec_keyword_items(l: Seq<Seq<char>>) -> Seq<char>
    decreases l.len(),
{
    if l.len() == 0 {
        Seq::empty()
    } else {
        spec_keyword_items(l.drop_last()) + "\n  - "@ + spec_render_value(l.last())
    }
}

/// The rendering of the unrecognized header fields, one `key: value` line
/// each.
pub open spec fn spec_unknown_lines(u: Seq<(Seq<char>, Seq<char>)>) -> Seq<char>
    decreases u.len(),
{
    if u.len() == 0 {
        Seq::empty()
    } else {
        spec_unknown_lines(u.drop_last()) + "\n"@ + u.last().0 + ": "@ + spec_render_value(
            u.last().1,
        )
    }
}

/// The rendering of a header: `title: `, `date: ` (as `YYYY-MM-DD`) and
/// `keywords:` lines in fixed order (an empty keyword list as
/// `keywords: []`), then the unrecognized fields in their retained order.
/// Every value is written through [`spec_render_value`], so that reading
/// reproduces it exactly. Lines are separated by single line feeds with no
/// trailing line feed.
pub open spec fn spec_render_meta(m: YamlMetaView) -> Seq<char> {
    "title: "@ + spec_render_value(m.title) + "\ndate: "@ + spec_render_date(m.date) + (
    if m.keywords.len() == 0 {
        "\nkeywords: []"@
    } else {
        "\nkeywords:"@ + spec_keyword_items(m.keywords)
    }) + spec_unknown_lines(m.unknown_fields)
}

impl YamlMeta {
    /// Render this header as its structured text, per [`spec_render_meta`].
    pub fn to_text(&self) -> (r: String)
        requires
            self@.wf(),
        ensures
            r@ == spec_render_meta(self@),
    {
        let mut out = String::new();
        out.append("title: ");
        let title_chars = str_to_chars(self.title.as_str());
        let title_text = chars_to_string(&render_value(&title_chars));
        out.append(title_text.as_str());
        out.append("\ndate: ");
        let date_text = chars_to_string(&render_date(&self.date));
        out.append(date_text.as_str());
        if self.keywords.len() == 0 {
            out.append("\nkeywords: []");
            assert(crate::task::strs(self.keywords@).len() == 0);
        } else {
            out.append("\nkeywords:");
            let ghost kws = crate::task::strs(self.keywords@);
            let ghost prefix = out@;
            let n = self.keywords.len();
            let mut i: usize = 0;
            assert(kws.take(0) =~= Seq::<Seq<char>>::empty());
            while i < n
                invariant
                    i <= n,
                    n == self.keywords@.len(),
                    kws == crate::task::strs(self.keywords@),
                    out@ == prefix + spec_keyword_items(kws.take(i as int)),
                decreases n - i,
            {
                assert(kws.take(i + 1).drop_last() =~= kws.take(i as int));
                assert(kws.take(i + 1).last() == self.keywords@[i as int]@);
                out.append("\n  - ");
                let kw_chars = str_to_chars(self.keywords[i].as_str());
                let kw_text = chars_to_string(&render_value(&kw_chars));
                out.append(kw_text.as_str());
                i = i + 1;
                assert(out@ =~= prefix + spec_keyword_items(kws.take(i as int)));
            }
            assert(kws.take(n as int) =~= kws);
        }
        let ghost unk = crate::task::str_pairs(self.unknown_fields@);
        let ghost prefix2 = out@;
        let m = self.unknown_fields.len();
        let mut j: usize = 0;
        assert(unk.take(0) =~= Seq::<(Seq<char>, Seq<char>)>::empty());
        while j < m
            invariant
                j <= m,
                m == self.unknown_fields@.len(),
                unk == crate::task::str_pairs(self.unknown_fields@),
                out@ == prefix2 + spec_unknown_lines(unk.take(j as int)),
            decreases m - j,
        {
            assert(unk.take(j + 1).drop_last() =~= unk.take(j as int));
            assert(unk.take(j + 1).last() == (
                self.unknown_fields@[j as int].0@,
                self.unknown_fields@[j as int].1@,
            ));
            out.append("\n");
            out.append(self.unknown_fields[j].0.as_str());
            out.append(": ");
            let val_chars = str_to_chars(self.unknown_fields[j].1.as_str());
            let val_text = chars_to_string(&render_value(&val_chars));
            out.append(val_text.as_str());
            j = j + 1;
            assert(out@ =~= prefix2 + spec_unknown_lines(unk.take(j as int)));
        }
        assert(unk.take(m as int) =~= unk);
        out
    }
}

/// A notes document: its filesystem location, an optional structured
/// header, and free-form body content.
pub struct NotesFile {
    pub path: String,
    pub header: Option<YamlMeta>,
    pub content: String,
}

/// The mathematical content of a [`NotesFile`].
pub struct NotesFileView {
    pub path: Seq<char>,
    pub header: Option<YamlMetaView>,
    pub content: Seq<char>,
}

impl View for NotesFile {
    type V = NotesFileView;

    open spec fn view(&self) -> NotesFileView {
        NotesFileView {
            path: self.path@,
            header: match self.header {
                Some(ref m) => Some(m@),
                None => None,
            },
            content: self.content@,
        }
    }
}

impl NotesFileView {
    pub open spec fn wf(self) -> bool {
        self.header matches Some(m) ==> m.wf()
    }
}

/// The text of a whole notes document: with a header, a `---` line, the
/// header text, a `---` line, a blank line, then the body; without one,
/// just the body.
pub open spec fn spec_render_doc(nf: NotesFileView) -> Seq<char> {
    match nf.header {
        Some(m) => "---\n"@ + spec_render_meta(m) + "\n---\n\n"@ + nf.content,
        None => nf.content,
    }
}

impl NotesFile {
    /// An empty notes document at `path`: no header, no content.
    pub fn new(path: &str) -> (r: NotesFile)
        ensures
            r@.path == path@,
            r@.header is None,
            r@.content == Seq::<char>::empty(),
    {
        NotesFile { path: String::from_str(path), header: None, content: String::new() }
    }

    /// This document with its header replaced.
    pub fn with_header(self, header: YamlMeta) -> (r: NotesFile)
        ensures
            r@ == (NotesFileView { header: Some(header@), ..self@ }),
    {
        NotesFile { path: self.path, header: Some(header), content: self.content }
    }

    /// This document with its body content replaced.
    pub fn with_content(self, content: &str) -> (r: NotesFile)
        ensures
            r@ == (NotesFileView { content: content@, ..self@ }),
    {
        NotesFile { path: self.path, header: self.header, content: String::from_str(content) }
    }

    /// Runtime check of [`NotesFileView::wf`].
    pub fn is_well_formed(&self) -> (r: bool)
        ensures
            r == self@.wf(),
    {
        match &self.header {
            Some(m) => m.date.well_formed(),
            None => true,
        }
    }

    /// Render the document as the text to be persisted, per
    /// [`spec_render_doc`].
    pub fn render(&self) -> (r: String)
        requires
            self@.wf(),
        ensures
            r@ == spec_render_doc(self@),
    {
        match &self.header {
            Some(m) => {
                let mut out = String::new();
                out.append("---\n");
                let meta = m.to_text();
                out.append(meta.as_str());
                out.append("\n---\n\n");
                out.append(self.content.as_str());
                out
            },
            None => self.content.clone(),
        }
    }

    /// Interpret a document read from `path`: a recognized header block
    /// that parses becomes the header, with the (already trimmed) remainder
    /// as content; a document without two `---` delimiters, or whose header
    /// block does not parse, degrades to no header with the whole trimmed
    /// document as content — a document is never rejected.
    pub fn from_document(path: &str, document: &str) -> (r: NotesFile)
        ensures
            r@.path == path@,
            match spec_split_header(document@) {
                Some(hb) => match spec_parse_meta(hb.0) {
                    Some(m) => r@.header == Some(m) && r@.content == hb.1,
                    None => r@.header is None && r@.content == spec_trim(document@),
                },
                None => r@.header is None && r@.content == spec_trim(document@),
            },
    {
        match split_yaml_header(document) {
            Some(hb) => match YamlMeta::from_str(hb.0.as_str()) {
                Some(m) => NotesFile {
                    path: String::from_str(path),
                    header: Some(m),
                    content: hb.1,
                },
                None => {
                    let chars = str_to_chars(document);
                    let t = trim_chars(&chars);
                    NotesFile {
                        path: String::from_str(path),
                        header: None,
                        content: chars_to_string(&t),
                    }
                },
            },
            None => {
                let chars = str_to_chars(document);
                let t = trim_chars(&chars);
                NotesFile {
                    path: String::from_str(path),
                    header: None,
                    content: chars_to_string(&t),
                }
            },
        }
    }
}

} // verus!

verus! {

/// Whether a `---` delimiter starts at position `j` of `s`.
proof fn lemma_find_char_hits(s: Seq<char>, i: nat, k: int, c: char)
    requires
        i <= k <= s.len(),
        forall|j: int| i <= j < k ==> s[j] != c,
        k < s.len() ==> s[k] == c,
    ensures
        find_char(s, i, c) == k,
    decreases k - i,
{
    if i < k {
        lemma_find_char_hits(s, (i + 1) as nat, k, c);
    }
}

proof fn lemma_find_delim_line_hits(s: Seq<char>, i: nat, k: int)
    requires
        i <= k <= s.len(),
        forall|j: int| i <= j < k ==> !delim_line_at(s, j),
        delim_line_at(s, k) || k == s.len(),
    ensures
        find_delim_line(s, i) == k,
    decreases k - i,
{
    if i + 3 > s.len() {
        assert(k == s.len());
    } else if i < k {
        assert(!delim_line_at(s, i as int));
        lemma_find_delim_line_hits(s, (i + 1) as nat, k);
    }
}

proof fn lemma_trim_front_id(s: Seq<char>)
    requires
        s.len() == 0 || !is_ws(s[0]),
    ensures
        spec_trim_front(s) == s,
{
}

proof fn lemma_trim_back_id(s: Seq<char>)
    requires
        s.len() == 0 || !is_ws(s.last()),
    ensures
        spec_trim_back(s) == s,
{
}

proof fn lemma_trim_id(s: Seq<char>)
    requires
        s.len() == 0 || (!is_ws(s[0]) && !is_ws(s.last())),
    ensures
        spec_trim(s) == s,
{
    lemma_trim_front_id(s);
    lemma_trim_back_id(s);
}

/// Trimming strips one leading line feed.
proof fn lemma_trim_front_nl(s: Seq<char>)
    requires
        s.len() > 0,
        s[0] == '\n',
    ensures
        spec_trim_front(s) == spec_trim_front(s.drop_first()),
{
}

/// Trimming strips one trailing line feed.
proof fn lemma_trim_back_nl(s: Seq<char>)
    requires
        s.len() > 0,
        s.last() == '\n',
    ensures
        spec_trim_back(s) == spec_trim_back(s.drop_last()),
{
}

} // verus!

verus! {

/// A header text wrapped in delimiter lines with a body after it splits
/// back into exactly that header text and body, as long as neither holds a
/// line consisting exactly of `---` (the ends of each text counting as line
/// boundaries) and neither starts or ends with whitespace.
pub proof fn lemma_wrapped_document_splits(m_text: Seq<char>, content: Seq<char>)
    requires
        m_text.len() > 0,
        !is_ws(m_text[0]),
        !is_ws(m_text.last()),
        forall|j: int| !delim_line_at(m_text, j),
        content.len() > 0,
        !is_ws(content[0]),
        !is_ws(content.last()),
        forall|j: int| !delim_line_at(content, j),
    ensures
        spec_split_header("---\n"@ + m_text + "\n---\n\n"@ + content) == Some((m_text, content)),
{
    reveal_strlit("---\n");
    reveal_strlit("\n---\n\n");
    assert("---\n"@.len() == 4);
    assert("\n---\n\n"@.len() == 6);
    let n = m_text.len() as int;
    let doc = "---\n"@ + m_text + "\n---\n\n"@ + content;
    assert(doc[0] == '-');
    assert(doc.last() == content.last());
    lemma_trim_id(doc);
    assert(spec_trim(doc) == doc);
    assert(doc[3] == '\n');
    assert(delim_line_at(doc, 0));
    lemma_find_delim_line_hits(doc, 0, 0);
    assert(find_delim_line(doc, 0) == 0);
    let k = n + 5;
    assert(delim_line_at(doc, k)) by {
        assert(doc[n + 4] == "\n---\n\n"@[0]);
        assert(doc[n + 5] == "\n---\n\n"@[1]);
        assert(doc[n + 6] == "\n---\n\n"@[2]);
        assert(doc[n + 7] == "\n---\n\n"@[3]);
        assert(doc[n + 8] == "\n---\n\n"@[4]);
    };
    assert forall|j: int| 3 <= j < k implies !delim_line_at(doc, j) by {
        if delim_line_at(doc, j) {
            assert(doc[j] == '-' && doc[j + 1] == '-' && doc[j + 2] == '-');
            if j == 3 {
                assert(doc[3] == '\n');
                assert(false);
            } else if j + 3 <= 4 + n {
                // the three hyphens would form a delimiter line of the
                // header text itself
                assert(doc[j] == m_text[j - 4]);
                assert(doc[j + 1] == m_text[j - 3]);
                assert(doc[j + 2] == m_text[j - 2]);
                assert(delim_line_at(m_text, j - 4)) by {
                    if j > 4 {
                        assert(doc[j - 1] == m_text[j - 5]);
                    }
                    if j + 3 < 4 + n {
                        assert(doc[j + 3] == m_text[j - 1]);
                    } else {
                        assert(j - 4 + 3 == n);
                    }
                };
                assert(false);
            } else {
                // the window reaches the line feed before the second
                // delimiter line
                assert(j <= n + 4 <= j + 2);
                assert(doc[n + 4] == '\n');
                assert(false);
            }
        }
    };
    lemma_find_delim_line_hits(doc, 3, k);
    assert(find_delim_line(doc, 3) == k);
    let header_part = doc.subrange(3, k);
    let body_part = doc.skip(k + 3);
    assert(header_part =~= seq!['\n'] + m_text + seq!['\n']);
    assert(body_part =~= seq!['\n', '\n'] + content);
    assert(spec_trim(header_part) == m_text) by {
        lemma_trim_front_nl(header_part);
        assert(header_part.drop_first() =~= m_text + seq!['\n']);
        lemma_trim_front_id(m_text + seq!['\n']);
        lemma_trim_back_nl(m_text + seq!['\n']);
        assert((m_text + seq!['\n']).drop_last() =~= m_text);
        lemma_trim_back_id(m_text);
    };
    assert(spec_trim(body_part) == content) by {
        lemma_trim_front_nl(body_part);
        assert(body_part.drop_first() =~= seq!['\n'] + content);
        lemma_trim_front_nl(seq!['\n'] + content);
        assert((seq!['\n'] + content).drop_first() =~= content);
        lemma_trim_front_id(content);
        lemma_trim_back_id(content);
    };
}

} // verus!

verus! {

proof fn lemma_find_key_sep_hits(s: Seq<char>, i: nat, k: int)
    requires
        i <= k <= s.len(),
        forall|j: int| i <= j < k ==> !((#[trigger] s[j]) == ':' && j + 1 < s.len() && s[j + 1] == ' '),
        k + 2 <= s.len() ==> (s[k] == ':' && s[k + 1] == ' '),
        k + 2 > s.len() ==> k == s.len(),
    ensures
        find_key_sep(s, i) == k || (k + 2 > s.len() && find_key_sep(s, i) == s.len()),
    decreases k - i,
{
    if i + 2 > s.len() {
    } else if i < k {
        lemma_find_key_sep_hits(s, (i + 1) as nat, k);
    }
}

/// No character of a rendered date is a line feed or a colon.
proof fn lemma_date_chars(d: Date)
    requires
        d.wf(),
    ensures
        forall|j: int|
            0 <= j < spec_render_date(d).len() ==> (#[trigger] spec_render_date(d)[j]) != '\n'
                && spec_render_date(d)[j] != ':',
{
    let s = spec_render_date(d);
    assert forall|j: int| 0 <= j < s.len() implies (#[trigger] s[j]) != '\n' && s[j] != ':' by {
        assert(s.len() == 10);
        if j == 4 || j == 7 {
            assert(s[j] == '-');
        } else {
            assert(crate::datetime::is_digit_char(s[j])) by {
                assert(0 <= d.year as int % 10 < 10);
            };
        }
    };
}

/// The header the creation hook renders — a title line, a date line and an
/// empty keyword list — parses back to exactly the same header, whatever
/// the title holds: the value codec quotes and escapes it as needed.
pub proof fn lemma_fresh_meta_parses_back(m: YamlMetaView)
    requires
        m.wf(),
        m.keywords.len() == 0,
        m.unknown_fields.len() == 0,
    ensures
        spec_parse_meta(spec_render_meta(m)) == Some(m),
{
    reveal_strlit("title: ");
    reveal_strlit("\ndate: ");
    reveal_strlit("date: ");
    reveal_strlit("\nkeywords: []");
    reveal_strlit("keywords: []");
    reveal_strlit("keywords:");
    reveal_strlit("  - ");
    reveal_strlit("title");
    reveal_strlit("date");
    reveal_strlit("keywords");
    reveal_strlit("[]");
    assert("title: "@.len() == 7);
    assert("\ndate: "@.len() == 7);
    assert("\nkeywords: []"@.len() == 13);
    let t = m.title;
    let tl = spec_render_value(t);
    let n = tl.len() as int;
    let d = spec_render_date(m.date);
    lemma_date_chars(m.date);
    lemma_render_value_no_nl(t);
    lemma_read_render_value(t);
    assert(d.len() == 10);
    let mtext = spec_render_meta(m);
    assert(m.keywords.len() == 0);
    assert(mtext =~= "title: "@ + tl + "\ndate: "@ + d + "\nkeywords: []"@);

    // the three lines
    let line1 = "title: "@ + tl;
    assert(mtext.take(7 + n) =~= line1);
    assert(mtext[7 + n] == '\n');
    assert forall|j: int| 0 <= j < 7 + n implies (#[trigger] mtext[j]) != '\n' by {
        if j < 7 {
            assert(mtext[j] == "title: "@[j]);
        } else {
            assert(mtext[j] == tl[j - 7]);
        }
    };
    lemma_find_char_hits(mtext, 0, 7 + n, '\n');
    let m2 = mtext.skip(8 + n);
    assert(spec_split_lines(mtext) =~= seq![line1] + spec_split_lines(m2));

    let line2 = "date: "@ + d;
    assert(m2 =~= line2 + "\nkeywords: []"@);
    assert(m2.take(16) =~= line2);
    assert(m2[16] == '\n');
    assert forall|j: int| 0 <= j < 16 implies (#[trigger] m2[j]) != '\n' by {
        if j < 6 {
            assert(m2[j] == "\ndate: "@[j + 1]);
        } else {
            assert(m2[j] == d[j - 6]);
        }
    };
    lemma_find_char_hits(m2, 0, 16, '\n');
    let m3 = m2.skip(17);
    assert(spec_split_lines(m2) =~= seq![line2] + spec_split_lines(m3));

    let line3 = "keywords: []"@;
    assert(m3 =~= line3);
    assert forall|j: int| 0 <= j < m3.len() implies (#[trigger] m3[j]) != '\n' by {
        assert(m3[j] == "\nkeywords: []"@[j + 1]);
    };
    lemma_find_char_hits(m3, 0, m3.len() as int, '\n');
    assert(spec_split_lines(m3) =~= seq![line3]);
    let lines = seq![line1, line2, line3];
    assert(spec_split_lines(mtext) =~= lines);

    // line one: the title
    let acc0 = empty_meta_acc();
    assert(!(line1.len() >= 4 && line1.take(4) == "  - "@)) by {
        if line1.len() >= 4 && line1.take(4) == "  - "@ {
            assert(line1[0] == "  - "@[0]);
        }
    };
    assert(line1 != "keywords:"@) by {
        if line1 == "keywords:"@ {
            assert(line1[0] == "keywords:"@[0]);
        }
    };
    assert(find_key_sep(line1, 0) == 5) by {
        assert(line1[5] == ':' && line1[6] == ' ');
        assert(forall|j: int|
            0 <= j < 5 ==> (#[trigger] line1[j]) == "title: "@[j] && "title: "@[j] != ':');
        lemma_find_key_sep_hits(line1, 0, 5);
    };
    assert(line1.take(5) =~= "title"@);
    assert(line1.skip(7) =~= tl);
    let acc1 = MetaAcc { title: Some(t), in_list: false, ..acc0 };
    assert(spec_meta_line(line1, acc0) == Some(acc1));

    // line two: the date
    assert(!(line2.len() >= 4 && line2.take(4) == "  - "@)) by {
        if line2.len() >= 4 && line2.take(4) == "  - "@ {
            assert(line2[0] == "  - "@[0]);
        }
    };
    assert(line2 != "keywords:"@) by {
        if line2 == "keywords:"@ {
            assert(line2[0] == "keywords:"@[0]);
        }
    };
    assert(find_key_sep(line2, 0) == 4) by {
        assert(line2[4] == ':' && line2[5] == ' ');
        assert(forall|j: int|
            0 <= j < 4 ==> (#[trigger] line2[j]) == "date: "@[j] && "date: "@[j] != ':');
        lemma_find_key_sep_hits(line2, 0, 4);
    };
    assert(line2.take(4) =~= "date"@);
    assert(line2.skip(6) =~= d);
    assert(line2.take(4) != "title"@) by {
        if line2.take(4) == "title"@ {
            assert(line2.take(4).len() == "title"@.len());
        }
    };
    crate::datetime::lemma_date_parse_render(m.date);
    assert(spec_read_value(d) == Some(d)) by {
        assert(crate::datetime::is_digit_char(d[0]));
    };
    let acc2 = MetaAcc { date: Some(m.date), in_list: false, ..acc1 };
    assert(spec_meta_line(line2, acc1) == Some(acc2));

    // line three: the empty keyword list
    assert(!(line3.len() >= 4 && line3.take(4) == "  - "@)) by {
        if line3.len() >= 4 && line3.take(4) == "  - "@ {
            assert(line3[0] == "  - "@[0]);
        }
    };
    assert(line3 != "keywords:"@) by {
        if line3 == "keywords:"@ {
            assert(line3.len() == "keywords:"@.len());
        }
    };
    assert(find_key_sep(line3, 0) == 8) by {
        assert(line3[8] == ':' && line3[9] == ' ');
        assert(forall|j: int| 0 <= j < 8 ==> (#[trigger] line3[j]) != ':');
        lemma_find_key_sep_hits(line3, 0, 8);
    };
    assert(line3.take(8) =~= "keywords"@);
    assert(line3.skip(10) =~= "[]"@);
    assert(line3.take(8) != "title"@) by {
        if line3.take(8) == "title"@ {
            assert(line3.take(8).len() == "title"@.len());
        }
    };
    assert(line3.take(8) != "date"@) by {
        if line3.take(8) == "date"@ {
            assert(line3.take(8).len() == "date"@.len());
        }
    };
    let acc3 = MetaAcc { keywords: Some(Seq::empty()), in_list: false, ..acc2 };
    assert(spec_meta_line(line3, acc2) == Some(acc3));

    // fold the three lines and finish
    assert(spec_meta_fold(Seq::<Seq<char>>::empty()) == Some(acc0));
    assert(spec_meta_fold(seq![line1]) == Some(acc1)) by {
        assert(seq![line1].drop_last() =~= Seq::<Seq<char>>::empty());
        assert(seq![line1].last() == line1);
        assert(spec_meta_fold(Seq::<Seq<char>>::empty()) == Some(acc0));
    };
    assert(spec_meta_fold(seq![line1, line2]) == Some(acc2)) by {
        assert(seq![line1, line2].drop_last() =~= seq![line1]);
        assert(seq![line1, line2].last() == line2);
    };
    assert(spec_meta_fold(lines) == Some(acc3)) by {
        assert(lines.drop_last() =~= seq![line1, line2]);
        assert(lines.last() == line3);
    };
    assert(spec_meta_finish(acc3) == Some(m)) by {
        assert(m.keywords =~= Seq::<Seq<char>>::empty());
        assert(m.unknown_fields =~= Seq::<(Seq<char>, Seq<char>)>::empty());
    };
}

} // verus!

verus! {

/// The rendered fresh header fits between delimiter lines: it is nonempty,
/// starts and ends with non-whitespace, and no line of it consists of
/// `---` — every line starts with a field name, and written values carry no
/// line feed.
pub proof fn lemma_fresh_meta_embeds(m: YamlMetaView)
    requires
        m.wf(),
        m.keywords.len() == 0,
        m.unknown_fields.len() == 0,
    ensures
        spec_render_meta(m).len() > 0,
        !is_ws(spec_render_meta(m)[0]),
        !is_ws(spec_render_meta(m).last()),
        forall|j: int| !delim_line_at(spec_render_meta(m), j),
{
    reveal_strlit("title: ");
    reveal_strlit("\ndate: ");
    reveal_strlit("\nkeywords: []");
    assert("title: "@.len() == 7);
    assert("\ndate: "@.len() == 7);
    assert("\nkeywords: []"@.len() == 13);
    let tl = spec_render_value(m.title);
    let n = tl.len() as int;
    let d = spec_render_date(m.date);
    let mtext = spec_render_meta(m);
    assert(mtext =~= "title: "@ + tl + "\ndate: "@ + d + "\nkeywords: []"@);
    assert(d.len() == 10);
    lemma_date_chars(m.date);
    lemma_render_value_no_nl(m.title);
    assert(mtext[0] == 't');
    assert(mtext.last() == ']');
    // the only line feeds are the two separating the three lines
    assert forall|p: int|
        0 <= p < mtext.len() && (#[trigger] mtext[p]) == '\n' implies p == 7 + n || p == 24
        + n by {
        if p < 7 {
            assert(mtext[p] == "title: "@[p]);
        } else if p < 7 + n {
            assert(mtext[p] == tl[p - 7]);
        } else if p < 14 + n {
            if p > 7 + n {
                assert(mtext[p] == "\ndate: "@[p - 7 - n]);
            }
        } else if p < 24 + n {
            assert(mtext[p] == d[p - 14 - n]);
        } else {
            if p > 24 + n {
                assert(mtext[p] == "\nkeywords: []"@[p - 24 - n]);
            }
        }
    };
    // a delimiter line would have to start the header or follow a line
    // feed, and the characters there are field names
    assert forall|j: int| !delim_line_at(mtext, j) by {
        if delim_line_at(mtext, j) {
            assert(mtext[j] == '-');
            if j == 0 {
                assert(false);
            } else {
                assert(mtext[j - 1] == '\n');
                assert(j - 1 == 7 + n || j - 1 == 24 + n);
                if j == 8 + n {
                    assert(mtext[j] == "\ndate: "@[1]);
                } else {
                    assert(mtext[j] == "\nkeywords: []"@[1]);
                }
                assert(false);
            }
        }
    };
}

} // verus!
