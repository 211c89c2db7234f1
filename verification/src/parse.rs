//! Reading the configuration file.
//!
//! The grammar is the file format [`crate::config::format_config`] writes,
//! taken a little more liberally: lines are trimmed, blank lines and `#`
//! comments are skipped, keys may come in any order, unknown keys and
//! sections are ignored, and a missing key falls back to its default. A
//! value is an integer, `true` or `false`, a quoted string without inner
//! quotes, `[]`, or a bracket opening a multi-line list whose entries are
//! quoted strings or inline `{ name = "…", args = "…" }` tables in the
//! written shape — the argument pair optional, defaulting to empty — one
//! per line, `]` closing on its own line.

use vstd::prelude::*;
use vstd::string::StrSliceExecFns;
use vstd::string::StringExecFns;
use crate::config::ModuleEntry;
use crate::config::ModuleEntryV;
use crate::text::dec_val;
use crate::text::is_digit;
use crate::text::is_digit_seq;
use crate::text::is_space_char;
use crate::text::str_eq;

verus! {

/// The first index at or after `from` holding `c`, or `-1`.
pub open spec fn find_char(s: Seq<char>, c: char, from: int) -> int
    decreases s.len() - from,
{
    if from >= s.len() {
        -1
    } else if s[from] == c {
        from
    } else {
        find_char(s, c, from + 1)
    }
}

/// Finds the first occurrence of `c` at or after `from`.
fn find_char_at(s: &str, c: char, from: usize, len: usize) -> (r: Option<usize>)
    requires
        len == s@.len(),
        from <= len,
    ensures
        r matches Some(i) ==> from <= i < len && find_char(s@, c, from as int) == i,
        r is None ==> find_char(s@, c, from as int) == -1,
{
    let mut i: usize = from;
    while i < len
        invariant
            len == s@.len(),
            from <= i <= len,
            find_char(s@, c, from as int) == find_char(s@, c, i as int),
        decreases len - i,
    {
        if s.get_char(i) == c {
            return Some(i);
        }
        i += 1;
    }
    None
}

/// The first index at or after `from` that is not whitespace.
pub open spec fn skip_ws(s: Seq<char>, from: int) -> int
    decreases s.len() - from,
{
    if from >= s.len() {
        s.len() as int
    } else if is_space_char(s[from]) {
        skip_ws(s, from + 1)
    } else {
        from
    }
}

/// The index after the last non-whitespace character before `upto`.
pub open spec fn rskip_ws(s: Seq<char>, upto: int) -> int
    decreases upto,
{
    if upto <= 0 {
        0
    } else if is_space_char(s[upto - 1]) {
        rskip_ws(s, upto - 1)
    } else {
        upto
    }
}

/// A slice of `s` with surrounding whitespace removed.
pub open spec fn trim_range(s: Seq<char>, from: int, upto: int) -> Seq<char> {
    let a = skip_ws(s, from);
    let b = rskip_ws(s, upto);
    if a <= b {
        s.subrange(a, b)
    } else {
        Seq::empty()
    }
}

/// `s` with surrounding whitespace removed.
pub open spec fn trim_spec(s: Seq<char>) -> Seq<char> {
    trim_range(s, 0, s.len() as int)
}

/// Trims the slice of `s` between `from` and `upto`.
fn trim_part(s: &str, from: usize, upto: usize, len: usize) -> (r: String)
    requires
        len == s@.len(),
        from <= len,
        upto <= len,
    ensures
        r@ == trim_range(s@, from as int, upto as int),
{
    let mut a: usize = from;
    while a < len
        invariant
            len == s@.len(),
            from <= a <= len,
            skip_ws(s@, from as int) == skip_ws(s@, a as int),
        ensures
            a <= len,
            skip_ws(s@, from as int) == a as int,
        decreases len - a,
    {
        let c = s.get_char(a);
        if !(c == ' ' || c == '\t' || c == '\r' || c == '\n') {
            proof {
                assert(skip_ws(s@, a as int) == a as int);
            }
            break ;
        }
        a += 1;
    }
    let mut b: usize = upto;
    while b > 0
        invariant
            len == s@.len(),
            upto <= len,
            0 <= b <= upto,
            rskip_ws(s@, upto as int) == rskip_ws(s@, b as int),
        ensures
            b <= upto,
            rskip_ws(s@, upto as int) == b as int,
        decreases b,
    {
        let c = s.get_char(b - 1);
        if !(c == ' ' || c == '\t' || c == '\r' || c == '\n') {
            proof {
                assert(rskip_ws(s@, b as int) == b as int);
            }
            break ;
        }
        b -= 1;
    }
    if a <= b {
        let piece = s.substring_char(a, b);
        String::from_str(piece)
    } else {
        String::new()
    }
}

/// `s` with surrounding whitespace removed.
pub fn trim_str(s: &str) -> (r: String)
    ensures
        r@ == trim_spec(s@),
{
    let len = s.unicode_len();
    trim_part(s, 0, len, len)
}

/// A port value: a non-empty digit string whose value fits a port.
pub open spec fn parse_port_spec(v: Seq<char>) -> Option<u16> {
    if v.len() >= 1 && is_digit_seq(v) && dec_val(v) <= 0xffff {
        Some(dec_val(v) as u16)
    } else {
        None
    }
}

/// A digit prefix never exceeds the whole number.
proof fn lemma_dec_val_extend(s: Seq<char>, i: int)
    requires
        0 <= i <= s.len(),
    ensures
        dec_val(s.take(i)) <= dec_val(s.take(s.len() as int)),
    decreases s.len() - i,
{
    if i < s.len() {
        assert(s.take(i + 1).drop_last() =~= s.take(i));
        assert(s.take(i + 1).last() == s[i]);
        assert(dec_val(s.take(i + 1)) == dec_val(s.take(i)) * 10 + crate::text::digit_val(s[i]));
        lemma_dec_val_extend(s, i + 1);
    }
}

/// Reads a port number.
pub fn parse_port_val(v: &str) -> (r: Option<u16>)
    ensures
        r == parse_port_spec(v@),
{
    let len = v.unicode_len();
    if len == 0 {
        return None;
    }
    let mut acc: u32 = 0;
    let mut i: usize = 0;
    while i < len
        invariant
            len == v@.len(),
            0 <= i <= len,
            forall|j: int| 0 <= j < i ==> is_digit(#[trigger] v@[j]),
            acc <= 0xffff,
            acc == dec_val(v@.take(i as int)),
        decreases len - i,
    {
        let c = v.get_char(i);
        let u = c as u32;
        if u < 48 || u > 57 {
            return None;
        }
        proof {
            assert(is_digit(v@[i as int]));
            assert(v@.take(i + 1).drop_last() =~= v@.take(i as int));
            assert(v@.take(i + 1).last() == v@[i as int]);
        }
        acc = acc * 10 + (u - 48);
        proof {
            assert(acc == dec_val(v@.take(i + 1)));
        }
        if acc > 0xffff {
            proof {
                lemma_dec_val_extend(v@, i + 1);
                assert(v@.take(v@.len() as int) =~= v@);
            }
            return None;
        }
        i += 1;
    }
    proof {
        assert(v@.take(len as int) =~= v@);
    }
    Some(acc as u16)
}

/// A boolean value: exactly `true` or `false`.
pub open spec fn parse_bool_spec(v: Seq<char>) -> Option<bool> {
    if v == "true"@ {
        Some(true)
    } else if v == "false"@ {
        Some(false)
    } else {
        None
    }
}

/// Reads a boolean.
pub fn parse_bool_val(v: &str) -> (r: Option<bool>)
    ensures
        r == parse_bool_spec(v@),
{
    if str_eq(v, "true") {
        Some(true)
    } else if str_eq(v, "false") {
        Some(false)
    } else {
        proof {
            reveal_strlit("true");
            reveal_strlit("false");
        }
        None
    }
}

/// A string value: quotes around content without inner quotes.
pub open spec fn parse_string_spec(v: Seq<char>) -> Option<Seq<char>> {
    if v.len() >= 2 && v[0] == '"' && v[v.len() - 1] == '"' && (forall|i: int|
        0 < i < v.len() - 1 ==> v[i] != '"') {
        Some(v.subrange(1, v.len() - 1))
    } else {
        None
    }
}

/// Reads a quoted string.
pub fn parse_string_val(v: &str) -> (r: Option<String>)
    ensures
        r matches Some(s) ==> parse_string_spec(v@) == Some(s@),
        r is None ==> parse_string_spec(v@) is None,
{
    let len = v.unicode_len();
    if len < 2 {
        return None;
    }
    if v.get_char(0) != '"' || v.get_char(len - 1) != '"' {
        return None;
    }
    let mut i: usize = 1;
    while i < len - 1
        invariant
            len == v@.len(),
            2 <= len,
            1 <= i <= len - 1,
            forall|j: int| 0 < j < i ==> v@[j] != '"',
        decreases len - i,
    {
        if v.get_char(i) == '"' {
            return None;
        }
        i += 1;
    }
    let inner = v.substring_char(1, len - 1);
    Some(String::from_str(inner))
}

/// An inline module table in the written shape, the argument pair
/// optional: `{ name = "…", args = "…" }` with exactly four quotes, or
/// `{ name = "…" }` with exactly two and empty arguments.
pub open spec fn parse_table_spec(v: Seq<char>) -> Option<ModuleEntryV> {
    let q1 = find_char(v, '"', 0);
    let q2 = find_char(v, '"', q1 + 1);
    let q3 = find_char(v, '"', q2 + 1);
    if q1 >= 0 && q2 >= 0 && v.take(q1) == "{ name = "@ {
        if q3 < 0 {
            if v.subrange(q2 + 1, v.len() as int) == " }"@ {
                Some(ModuleEntryV::Full { name: v.subrange(q1 + 1, q2), args: Seq::empty() })
            } else {
                None
            }
        } else {
            let q4 = find_char(v, '"', q3 + 1);
            if q4 >= 0 && find_char(v, '"', q4 + 1) == -1 && v.subrange(q2 + 1, q3) == ", args = "@
                && v.subrange(q4 + 1, v.len() as int) == " }"@ {
                Some(
                    ModuleEntryV::Full {
                        name: v.subrange(q1 + 1, q2),
                        args: v.subrange(q3 + 1, q4),
                    },
                )
            } else {
                None
            }
        }
    } else {
        None
    }
}

/// The index found for `c` lies at or after `from` and below the length.
pub proof fn lemma_find_char_range(s: Seq<char>, c: char, from: int)
    ensures
        find_char(s, c, from) == -1 || (from <= find_char(s, c, from) < s.len() && s[find_char(
            s,
            c,
            from,
        )] == c),
    decreases s.len() - from,
{
    if from < s.len() && s[from] != c {
        lemma_find_char_range(s, c, from + 1);
    }
}

/// Reads an inline module table.
pub fn parse_table_val(v: &str) -> (r: Option<ModuleEntry>)
    ensures
        r matches Some(e) ==> parse_table_spec(v@) == Some(e@),
        r is None ==> parse_table_spec(v@) is None,
{
    let len = v.unicode_len();
    proof {
        lemma_find_char_range(v@, '"', 0);
    }
    let q1 = match find_char_at(v, '"', 0, len) {
        Some(q) => q,
        None => {
            return None;
        },
    };
    proof {
        lemma_find_char_range(v@, '"', q1 + 1);
    }
    let q2 = match find_char_at(v, '"', q1 + 1, len) {
        Some(q) => q,
        None => {
            return None;
        },
    };
    proof {
        lemma_find_char_range(v@, '"', q2 + 1);
    }
    let head = v.substring_char(0, q1);
    if !str_eq(head, "{ name = ") {
        return None;
    }
    let q3 = match find_char_at(v, '"', q2 + 1, len) {
        Some(q) => q,
        None => {
            let tail = v.substring_char(q2 + 1, len);
            if str_eq(tail, " }") {
                let name = String::from_str(v.substring_char(q1 + 1, q2));
                return Some(ModuleEntry::Full { name, args: String::new() });
            }
            return None;
        },
    };
    proof {
        lemma_find_char_range(v@, '"', q3 + 1);
    }
    let q4 = match find_char_at(v, '"', q3 + 1, len) {
        Some(q) => q,
        None => {
            return None;
        },
    };
    if find_char_at(v, '"', q4 + 1, len).is_some() {
        return None;
    }
    let mid = v.substring_char(q2 + 1, q3);
    if !str_eq(mid, ", args = ") {
        return None;
    }
    let tail = v.substring_char(q4 + 1, len);
    if !str_eq(tail, " }") {
        return None;
    }
    let name = String::from_str(v.substring_char(q1 + 1, q2));
    let args = String::from_str(v.substring_char(q3 + 1, q4));
    Some(ModuleEntry::Full { name, args })
}

/// A list entry in the written shape: a quoted string for the bare form, an
/// inline table for the full form.
pub open spec fn parse_entry_spec(v: Seq<char>) -> Option<ModuleEntryV> {
    match parse_string_spec(v) {
        Some(name) => Some(ModuleEntryV::Simple(name)),
        None => parse_table_spec(v),
    }
}

/// Reads one module-list entry.
pub fn parse_entry_val(v: &str) -> (r: Option<ModuleEntry>)
    ensures
        r matches Some(e) ==> parse_entry_spec(v@) == Some(e@),
        r is None ==> parse_entry_spec(v@) is None,
{
    match parse_string_val(v) {
        Some(name) => Some(ModuleEntry::Simple(name)),
        None => parse_table_val(v),
    }
}


/// The lines of `s` from `from` on, split at each newline.
pub open spec fn split_from(s: Seq<char>, from: int) -> Seq<Seq<char>>
    decreases s.len() - from,
    when 0 <= from <= s.len()
    via split_from_decreases
{
    let k = find_char(s, '\n', from);
    if k < 0 {
        seq![s.subrange(from, s.len() as int)]
    } else {
        seq![s.subrange(from, k)] + split_from(s, k + 1)
    }
}

#[via_fn]
proof fn split_from_decreases(s: Seq<char>, from: int) {
    lemma_find_char_range(s, '\n', from);
}

/// Splits `s` into its lines.
pub fn split_lines(s: &str) -> (r: Vec<String>)
    ensures
        r.deep_view() == split_from(s@, 0),
{
    let len = s.unicode_len();
    let mut out: Vec<String> = Vec::new();
    let mut pos: usize = 0;
    loop
        invariant
            len == s@.len(),
            0 <= pos <= len,
            split_from(s@, 0) == out.deep_view() + split_from(s@, pos as int),
        decreases len - pos,
    {
        let ghost pre = out.deep_view();
        match find_char_at(s, '\n', pos, len) {
            Some(k) => {
                proof {
                    lemma_find_char_range(s@, '\n', pos as int);
                }
                let piece = String::from_str(s.substring_char(pos, k));
                out.push(piece);
                proof {
                    assert(out.deep_view() =~= pre.push(s@.subrange(pos as int, k as int)));
                    assert(split_from(s@, pos as int) == seq![s@.subrange(pos as int, k as int)]
                        + split_from(s@, k + 1));
                    assert(split_from(s@, 0) =~= out.deep_view() + split_from(s@, k + 1));
                }
                pos = k + 1;
            },
            None => {
                let piece = String::from_str(s.substring_char(pos, len));
                out.push(piece);
                proof {
                    assert(out.deep_view() =~= pre.push(s@.subrange(pos as int, len as int)));
                    assert(split_from(s@, pos as int) == seq![
                        s@.subrange(pos as int, s@.len() as int),
                    ]);
                    assert(split_from(s@, 0) =~= out.deep_view());
                }
                return out;
            },
        }
    }
}

/// Which table the reader stands in.
#[derive(Clone, Copy, PartialEq, Eq, Structural)]
pub enum Section {
    Top,
    Autostart,
    Other,
}

/// Which field an open multi-line list feeds.
#[derive(Clone, Copy, PartialEq, Eq, Structural)]
pub enum ListTarget {
    Paths,
    Modules,
    Ignored,
}

/// The reader state while the lines are consumed.
pub struct ParserState {
    pub section: Section,
    pub list: Option<ListTarget>,
    pub path_items: Vec<String>,
    pub module_items: Vec<ModuleEntry>,
    pub port: Option<u16>,
    pub discovery_paths: Option<Vec<String>>,
    pub enabled: Option<bool>,
    pub minimized: Option<bool>,
    pub modules: Option<Vec<ModuleEntry>>,
}

/// The mathematical value of a [`ParserState`].
#[verifier::ext_equal]
pub struct ParserStateV {
    pub section: Section,
    pub list: Option<ListTarget>,
    pub path_items: Seq<Seq<char>>,
    pub module_items: Seq<ModuleEntryV>,
    pub port: Option<u16>,
    pub discovery_paths: Option<Seq<Seq<char>>>,
    pub enabled: Option<bool>,
    pub minimized: Option<bool>,
    pub modules: Option<Seq<ModuleEntryV>>,
}

impl View for ParserState {
    type V = ParserStateV;

    open spec fn view(&self) -> ParserStateV {
        ParserStateV {
            section: self.section,
            list: self.list,
            path_items: self.path_items.deep_view(),
            module_items: self.module_items.deep_view(),
            port: self.port,
            discovery_paths: match self.discovery_paths {
                Some(v) => Some(v.deep_view()),
                None => None,
            },
            enabled: self.enabled,
            minimized: self.minimized,
            modules: match self.modules {
                Some(v) => Some(v.deep_view()),
                None => None,
            },
        }
    }
}

/// The reader state before the first line.
pub open spec fn init_state_spec() -> ParserStateV {
    ParserStateV {
        section: Section::Top,
        list: None,
        path_items: Seq::empty(),
        module_items: Seq::empty(),
        port: None,
        discovery_paths: None,
        enabled: None,
        minimized: None,
        modules: None,
    }
}

/// The state after a line closed an open list.
pub open spec fn close_list_spec(st: ParserStateV, t: ListTarget) -> ParserStateV {
    match t {
        ListTarget::Paths => ParserStateV {
            list: None,
            discovery_paths: Some(st.path_items),
            path_items: Seq::empty(),
            ..st
        },
        ListTarget::Modules => ParserStateV {
            list: None,
            modules: Some(st.module_items),
            module_items: Seq::empty(),
            ..st
        },
        ListTarget::Ignored => ParserStateV { list: None, ..st },
    }
}

/// One list entry line with a trailing comma removed.
pub open spec fn strip_comma(line: Seq<char>) -> Seq<char> {
    if line.len() > 0 && line.last() == ',' {
        line.drop_last()
    } else {
        line
    }
}

/// The list a `key = [` line opens.
pub open spec fn list_target_spec(section: Section, key: Seq<char>) -> ListTarget {
    if section == Section::Top && key == "discovery_paths"@ {
        ListTarget::Paths
    } else if section == Section::Autostart && key == "modules"@ {
        ListTarget::Modules
    } else {
        ListTarget::Ignored
    }
}

/// The reader state after one line, or nothing when the line is malformed.
pub open spec fn line_step(st: ParserStateV, raw: Seq<char>) -> Option<ParserStateV> {
    let line = trim_spec(raw);
    if st.list is Some {
        let t = st.list->0;
        if line == "]"@ {
            Some(close_list_spec(st, t))
        } else if line.len() == 0 || line[0] == '#' {
            Some(st)
        } else {
            let item = strip_comma(line);
            match t {
                ListTarget::Paths => match parse_string_spec(item) {
                    Some(p) => Some(ParserStateV { path_items: st.path_items.push(p), ..st }),
                    None => None,
                },
                ListTarget::Modules => match parse_entry_spec(item) {
                    Some(e) => Some(ParserStateV { module_items: st.module_items.push(e), ..st }),
                    None => None,
                },
                ListTarget::Ignored => Some(st),
            }
        }
    } else if line.len() == 0 || line[0] == '#' {
        Some(st)
    } else if line[0] == '[' {
        Some(
            ParserStateV {
                section: if line == "[autostart]"@ {
                    Section::Autostart
                } else {
                    Section::Other
                },
                ..st
            },
        )
    } else {
        let eq = find_char(line, '=', 0);
        if eq < 0 {
            None
        } else {
            let key = trim_range(line, 0, eq);
            let value = trim_range(line, eq + 1, line.len() as int);
            if value == "["@ {
                Some(
                    ParserStateV {
                        list: Some(list_target_spec(st.section, key)),
                        path_items: Seq::empty(),
                        module_items: Seq::empty(),
                        ..st
                    },
                )
            } else if st.section == Section::Top && key == "port"@ {
                match parse_port_spec(value) {
                    Some(p) => Some(ParserStateV { port: Some(p), ..st }),
                    None => None,
                }
            } else if st.section == Section::Top && key == "discovery_paths"@ {
                if value == "[]"@ {
                    Some(ParserStateV { discovery_paths: Some(Seq::empty()), ..st })
                } else {
                    None
                }
            } else if st.section == Section::Autostart && key == "enabled"@ {
                match parse_bool_spec(value) {
                    Some(b) => Some(ParserStateV { enabled: Some(b), ..st }),
                    None => None,
                }
            } else if st.section == Section::Autostart && key == "minimized"@ {
                match parse_bool_spec(value) {
                    Some(b) => Some(ParserStateV { minimized: Some(b), ..st }),
                    None => None,
                }
            } else if st.section == Section::Autostart && key == "modules"@ {
                if value == "[]"@ {
                    Some(ParserStateV { modules: Some(Seq::empty()), ..st })
                } else {
                    None
                }
            } else {
                Some(st)
            }
        }
    }
}

/// The reader state after all lines, or nothing once a line is malformed.
pub open spec fn run_lines(st: ParserStateV, lines: Seq<Seq<char>>) -> Option<ParserStateV>
    decreases lines.len(),
{
    if lines.len() == 0 {
        Some(st)
    } else {
        match line_step(st, lines[0]) {
            Some(st2) => run_lines(st2, lines.drop_first()),
            None => None,
        }
    }
}

impl ParserState {
    /// The reader state before the first line.
    pub fn init() -> (r: ParserState)
        ensures
            r@ == init_state_spec(),
    {
        let r = ParserState {
            section: Section::Top,
            list: None,
            path_items: Vec::new(),
            module_items: Vec::new(),
            port: None,
            discovery_paths: None,
            enabled: None,
            minimized: None,
            modules: None,
        };
        proof {
            assert(r@ =~= init_state_spec());
        }
        r
    }

    /// Consumes one line; `false` reports a malformed line.
    pub fn step_line(&mut self, raw: &str) -> (ok: bool)
        ensures
            ok ==> Some(final(self)@) == line_step(old(self)@, raw@),
            !ok ==> line_step(old(self)@, raw@) is None,
    {
        let line = trim_str(raw);
        let llen = line.as_str().unicode_len();
        if let Some(t) = self.list {
            if str_eq(line.as_str(), "]") {
                match t {
                    ListTarget::Paths => {
                        let mut items: Vec<String> = Vec::new();
                        core::mem::swap(&mut items, &mut self.path_items);
                        self.discovery_paths = Some(items);
                        self.list = None;
                        proof {
                            assert(self@.path_items =~= Seq::<Seq<char>>::empty());
                            assert(self@ =~= close_list_spec(old(self)@, t));
                        }
                    },
                    ListTarget::Modules => {
                        let mut items: Vec<ModuleEntry> = Vec::new();
                        core::mem::swap(&mut items, &mut self.module_items);
                        self.modules = Some(items);
                        self.list = None;
                        proof {
                            assert(self@.module_items =~= Seq::<ModuleEntryV>::empty());
                            assert(self@ =~= close_list_spec(old(self)@, t));
                        }
                    },
                    ListTarget::Ignored => {
                        self.list = None;
                        proof {
                            assert(self@ =~= close_list_spec(old(self)@, t));
                        }
                    },
                }
                return true;
            }
            if llen == 0 || line.as_str().get_char(0) == '#' {
                return true;
            }
            let item = if llen > 0 && line.as_str().get_char(llen - 1) == ',' {
                String::from_str(line.as_str().substring_char(0, llen - 1))
            } else {
                line
            };
            proof {
                assert(item@ =~= strip_comma(trim_spec(raw@)));
            }
            match t {
                ListTarget::Paths => match parse_string_val(item.as_str()) {
                    Some(p) => {
                        self.path_items.push(p);
                        proof {
                            assert(self@.path_items =~= old(self)@.path_items.push(
                                parse_string_spec(item@)->0,
                            ));
                            assert(self@ =~= (ParserStateV {
                                path_items: old(self)@.path_items.push(parse_string_spec(item@)->0),
                                ..old(self)@
                            }));
                        }
                        true
                    },
                    None => false,
                },
                ListTarget::Modules => match parse_entry_val(item.as_str()) {
                    Some(e) => {
                        let ghost ev = e@;
                        self.module_items.push(e);
                        proof {
                            assert(self@.module_items =~= old(self)@.module_items.push(ev));
                            assert(self@ =~= (ParserStateV {
                                module_items: old(self)@.module_items.push(ev),
                                ..old(self)@
                            }));
                        }
                        true
                    },
                    None => false,
                },
                ListTarget::Ignored => true,
            }
        } else {
            if llen == 0 || line.as_str().get_char(0) == '#' {
                return true;
            }
            if line.as_str().get_char(0) == '[' {
                self.section = if str_eq(line.as_str(), "[autostart]") {
                    Section::Autostart
                } else {
                    Section::Other
                };
                proof {
                    assert(Some(self@) =~= line_step(old(self)@, raw@));
                }
                return true;
            }
            let eq = match find_char_at(line.as_str(), '=', 0, llen) {
                Some(e) => e,
                None => {
                    return false;
                },
            };
            let key = trim_part(line.as_str(), 0, eq, llen);
            let value = trim_part(line.as_str(), eq + 1, llen, llen);
            if str_eq(value.as_str(), "[") {
                let target = if matches!(self.section, Section::Top) && str_eq(
                    key.as_str(),
                    "discovery_paths",
                ) {
                    ListTarget::Paths
                } else if matches!(self.section, Section::Autostart) && str_eq(
                    key.as_str(),
                    "modules",
                ) {
                    ListTarget::Modules
                } else {
                    ListTarget::Ignored
                };
                self.list = Some(target);
                self.path_items = Vec::new();
                self.module_items = Vec::new();
                proof {
                    assert(self@.path_items =~= Seq::<Seq<char>>::empty());
                    assert(self@.module_items =~= Seq::<ModuleEntryV>::empty());
                    assert(Some(self@) =~= line_step(old(self)@, raw@));
                }
                return true;
            }
            if matches!(self.section, Section::Top) && str_eq(key.as_str(), "port") {
                match parse_port_val(value.as_str()) {
                    Some(p) => {
                        self.port = Some(p);
                        proof {
                            assert(Some(self@) =~= line_step(old(self)@, raw@));
                        }
                        true
                    },
                    None => false,
                }
            } else if matches!(self.section, Section::Top) && str_eq(
                key.as_str(),
                "discovery_paths",
            ) {
                if str_eq(value.as_str(), "[]") {
                    self.discovery_paths = Some(Vec::new());
                    proof {
                        assert(self@.discovery_paths =~= Some(Seq::<Seq<char>>::empty()));
                        assert(Some(self@) =~= line_step(old(self)@, raw@));
                    }
                    true
                } else {
                    false
                }
            } else if matches!(self.section, Section::Autostart) && str_eq(
                key.as_str(),
                "enabled",
            ) {
                match parse_bool_val(value.as_str()) {
                    Some(b) => {
                        self.enabled = Some(b);
                        proof {
                            assert(Some(self@) =~= line_step(old(self)@, raw@));
                        }
                        true
                    },
                    None => false,
                }
            } else if matches!(self.section, Section::Autostart) && str_eq(
                key.as_str(),
                "minimized",
            ) {
                match parse_bool_val(value.as_str()) {
                    Some(b) => {
                        self.minimized = Some(b);
                        proof {
                            assert(Some(self@) =~= line_step(old(self)@, raw@));
                        }
                        true
                    },
                    None => false,
                }
            } else if matches!(self.section, Section::Autostart) && str_eq(
                key.as_str(),
                "modules",
            ) {
                if str_eq(value.as_str(), "[]") {
                    self.modules = Some(Vec::new());
                    proof {
                        assert(self@.modules =~= Some(Seq::<ModuleEntryV>::empty()));
                        assert(Some(self@) =~= line_step(old(self)@, raw@));
                    }
                    true
                } else {
                    false
                }
            } else {
                true
            }
        }
    }
}


/// What the file yielded: each field present exactly where the file set it.
pub struct ParsedConfig {
    pub port: Option<u16>,
    pub discovery_paths: Option<Vec<String>>,
    pub enabled: Option<bool>,
    pub minimized: Option<bool>,
    pub modules: Option<Vec<ModuleEntry>>,
}

/// The mathematical value of a [`ParsedConfig`].
#[verifier::ext_equal]
pub struct ParsedConfigV {
    pub port: Option<u16>,
    pub discovery_paths: Option<Seq<Seq<char>>>,
    pub enabled: Option<bool>,
    pub minimized: Option<bool>,
    pub modules: Option<Seq<ModuleEntryV>>,
}

impl View for ParsedConfig {
    type V = ParsedConfigV;

    open spec fn view(&self) -> ParsedConfigV {
        ParsedConfigV {
            port: self.port,
            discovery_paths: match self.discovery_paths {
                Some(v) => Some(v.deep_view()),
                None => None,
            },
            enabled: self.enabled,
            minimized: self.minimized,
            modules: match self.modules {
                Some(v) => Some(v.deep_view()),
                None => None,
            },
        }
    }
}

/// The fields a finished reader state yields.
pub open spec fn fields_of(st: ParserStateV) -> ParsedConfigV {
    ParsedConfigV {
        port: st.port,
        discovery_paths: st.discovery_paths,
        enabled: st.enabled,
        minimized: st.minimized,
        modules: st.modules,
    }
}

/// What parsing the whole text yields: the fields of the final reader
/// state, provided no line was malformed and no list stayed open.
pub open spec fn parse_config_spec(s: Seq<char>) -> Option<ParsedConfigV> {
    match run_lines(init_state_spec(), split_from(s, 0)) {
        Some(st) => if st.list is None {
            Some(fields_of(st))
        } else {
            None
        },
        None => None,
    }
}

/// Reads a configuration file's text.
pub fn parse_config(s: &str) -> (r: Option<ParsedConfig>)
    ensures
        r matches Some(p) ==> parse_config_spec(s@) == Some(p@),
        r is None ==> parse_config_spec(s@) is None,
{
    let lines = split_lines(s);
    let mut st = ParserState::init();
    let mut i: usize = 0;
    let ghost all = split_from(s@, 0);
    proof {
        assert(all.skip(0) =~= all);
    }
    while i < lines.len()
        invariant
            all == split_from(s@, 0),
            lines.deep_view() == all,
            0 <= i <= lines.len(),
            run_lines(init_state_spec(), all) == run_lines(st@, all.skip(i as int)),
        decreases lines.len() - i,
    {
        let ghost pre = st@;
        let ok = st.step_line(lines[i].as_str());
        if !ok {
            proof {
                assert(all.skip(i as int).len() > 0);
                assert(all.skip(i as int)[0] == all[i as int]);
                assert(line_step(pre, all[i as int]) is None);
                assert(run_lines(pre, all.skip(i as int)) is None);
            }
            return None;
        }
        proof {
            assert(all.skip(i as int)[0] == all[i as int]);
            assert(all.skip(i as int).drop_first() =~= all.skip(i + 1));
            assert(run_lines(pre, all.skip(i as int)) == run_lines(st@, all.skip(i + 1)));
        }
        i += 1;
    }
    proof {
        assert(all.skip(lines@.len() as int) =~= Seq::<Seq<char>>::empty());
    }
    if st.list.is_some() {
        return None;
    }
    let r = ParsedConfig {
        port: st.port,
        discovery_paths: st.discovery_paths,
        enabled: st.enabled,
        minimized: st.minimized,
        modules: st.modules,
    };
    proof {
        assert(r@ =~= fields_of(st@));
    }
    Some(r)
}

/// A parsed file over the defaults: every missing field — the whole
/// `[autostart]` table included — falls back to its default.
pub open spec fn merge_spec(
    p: ParsedConfigV,
    d: crate::config::UserConfigV,
) -> crate::config::UserConfigV {
    crate::config::UserConfigV {
        port: match p.port {
            Some(x) => x,
            None => d.port,
        },
        discovery_paths: match p.discovery_paths {
            Some(x) => x,
            None => d.discovery_paths,
        },
        autostart: crate::config::AutostartConfigV {
            enabled: match p.enabled {
                Some(x) => x,
                None => d.autostart.enabled,
            },
            minimized: match p.minimized {
                Some(x) => x,
                None => d.autostart.minimized,
            },
            modules: match p.modules {
                Some(x) => x,
                None => d.autostart.modules,
            },
        },
    }
}

/// Fills the missing fields of a parsed file from the defaults.
pub fn merge_config(p: ParsedConfig, d: crate::config::UserConfig) -> (r:
    crate::config::UserConfig)
    ensures
        r@ == merge_spec(p@, d@),
{
    let crate::config::UserConfig { port: dport, discovery_paths: dpaths, autostart: dauto } = d;
    let crate::config::AutostartConfig { enabled: den, minimized: dmin, modules: dmod } = dauto;
    let r = crate::config::UserConfig {
        port: match p.port {
            Some(x) => x,
            None => dport,
        },
        discovery_paths: match p.discovery_paths {
            Some(x) => x,
            None => dpaths,
        },
        autostart: crate::config::AutostartConfig {
            enabled: match p.enabled {
                Some(x) => x,
                None => den,
            },
            minimized: match p.minimized {
                Some(x) => x,
                None => dmin,
            },
            modules: match p.modules {
                Some(x) => x,
                None => dmod,
            },
        },
    };
    r
}

/// What the configuration store decided at startup.
pub struct LoadedConfig {
    pub config: crate::config::UserConfig,
    pub first_run: bool,
    pub malformed: bool,
}

/// Decides the configuration from the file's content, read once at
/// startup: a missing file is the first run and the defaults are persisted;
/// a file that parses is merged over the defaults; a malformed file keeps
/// the defaults — never overwritten — and is reported.
pub fn load_config(content: Option<&String>, defaults: crate::config::UserConfig) -> (r:
    LoadedConfig)
    ensures
        content is None ==> {
            &&& r.config@ == defaults@
            &&& r.first_run
            &&& !r.malformed
        },
        content matches Some(s) ==> {
            &&& !r.first_run
            &&& (parse_config_spec(s@) matches Some(p) ==> !r.malformed && r.config@ == merge_spec(
                p,
                defaults@,
            ))
            &&& (parse_config_spec(s@) is None ==> r.malformed && r.config@ == defaults@)
        },
{
    match content {
        None => LoadedConfig { config: defaults, first_run: true, malformed: false },
        Some(s) => match parse_config(s.as_str()) {
            Some(p) => LoadedConfig {
                config: merge_config(p, defaults),
                first_run: false,
                malformed: false,
            },
            None => LoadedConfig { config: defaults, first_run: false, malformed: true },
        },
    }
}

} // verus!
