//! The configuration format round-trips: writing a configuration with
//! [`crate::config::format_config`] and reading the text back with
//! [`crate::parse::parse_config`] yields the same configuration, for every
//! configuration whose strings are plain — free of quotes and newlines.

use vstd::prelude::*;
use crate::config::ModuleEntryV;
use crate::config::UserConfigV;
use crate::config::bool_seq;
use crate::config::entry_lines;
use crate::config::entry_text;
use crate::config::format_config_spec;
use crate::config::modules_block;
use crate::config::path_line;
use crate::config::path_lines;
use crate::config::paths_block;
use crate::parse::ListTarget;
use crate::parse::ParsedConfigV;
use crate::parse::ParserStateV;
use crate::parse::Section;
use crate::parse::find_char;
use crate::parse::init_state_spec;
use crate::parse::line_step;
use crate::parse::parse_config_spec;
use crate::parse::run_lines;
use crate::parse::rskip_ws;
use crate::parse::skip_ws;
use crate::parse::split_from;
use crate::parse::trim_spec;
use crate::text::dec_str;
use crate::text::is_space_char;
use crate::text::lemma_dec_str_val;

verus! {

/// A string the format round-trips literally: no quote, no newline.
pub open spec fn plain_str(s: Seq<char>) -> bool {
    forall|i: int| 0 <= i < s.len() ==> #[trigger] s[i] != '"' && s[i] != '\n'
}

/// A module entry whose name and argument string are plain.
pub open spec fn plain_entry(m: ModuleEntryV) -> bool {
    match m {
        ModuleEntryV::Simple(name) => plain_str(name),
        ModuleEntryV::Full { name, args } => plain_str(name) && plain_str(args),
    }
}

/// A configuration whose paths and entries are all plain.
pub open spec fn plain_config(c: UserConfigV) -> bool {
    &&& (forall|i: int|
        0 <= i < c.discovery_paths.len() ==> plain_str(#[trigger] c.discovery_paths[i]))
    &&& (forall|i: int|
        0 <= i < c.autostart.modules.len() ==> plain_entry(#[trigger] c.autostart.modules[i]))
}

/// The fields a round-tripped configuration parses to: each one present.
pub open spec fn parsed_of(c: UserConfigV) -> ParsedConfigV {
    ParsedConfigV {
        port: Some(c.port),
        discovery_paths: Some(c.discovery_paths),
        enabled: Some(c.autostart.enabled),
        minimized: Some(c.autostart.minimized),
        modules: Some(c.autostart.modules),
    }
}

/// `c` is found at `k`, and nowhere before `k` at or after `from`.
proof fn lemma_find_char_hit(s: Seq<char>, c: char, from: int, k: int)
    requires
        0 <= from <= k < s.len(),
        s[k] == c,
        forall|j: int| from <= j < k ==> s[j] != c,
    ensures
        find_char(s, c, from) == k,
    decreases k - from,
{
    if from < k {
        lemma_find_char_hit(s, c, from + 1, k);
    }
}

/// `c` is nowhere at or after `from`.
proof fn lemma_find_char_miss(s: Seq<char>, c: char, from: int)
    requires
        0 <= from,
        forall|j: int| from <= j < s.len() ==> s[j] != c,
    ensures
        find_char(s, c, from) == -1,
    decreases s.len() - from,
{
    if from < s.len() {
        lemma_find_char_miss(s, c, from + 1);
    }
}

/// Leading whitespace ends at the first non-whitespace index.
proof fn lemma_skip_ws_to(s: Seq<char>, from: int, k: int)
    requires
        0 <= from <= k <= s.len(),
        forall|j: int| from <= j < k ==> is_space_char(#[trigger] s[j]),
        k < s.len() ==> !is_space_char(s[k]),
    ensures
        skip_ws(s, from) == k,
    decreases k - from,
{
    if from < k {
        lemma_skip_ws_to(s, from + 1, k);
    }
}

/// Trailing whitespace reaches back to the last non-whitespace index.
proof fn lemma_rskip_ws_to(s: Seq<char>, upto: int, k: int)
    requires
        0 <= k <= upto <= s.len(),
        forall|j: int| k <= j < upto ==> is_space_char(#[trigger] s[j]),
        k > 0 ==> !is_space_char(s[k - 1]),
    ensures
        rskip_ws(s, upto) == k,
    decreases upto - k,
{
    if k < upto {
        lemma_rskip_ws_to(s, upto - 1, k);
    }
}

/// A line that neither starts nor ends with whitespace trims to itself.
proof fn lemma_trim_noop(l: Seq<char>)
    requires
        l.len() > 0,
        !is_space_char(l[0]),
        !is_space_char(l[l.len() - 1]),
    ensures
        trim_spec(l) == l,
{
    lemma_skip_ws_to(l, 0, 0);
    lemma_rskip_ws_to(l, l.len() as int, l.len() as int);
    assert(l.subrange(0, l.len() as int) =~= l);
}

/// A line of two leading spaces and a body that neither starts nor ends
/// with whitespace trims to the body.
proof fn lemma_trim_two_spaces(l: Seq<char>)
    requires
        l.len() > 2,
        l[0] == ' ',
        l[1] == ' ',
        !is_space_char(l[2]),
        !is_space_char(l[l.len() - 1]),
    ensures
        trim_spec(l) == l.skip(2),
{
    lemma_skip_ws_to(l, 0, 2);
    lemma_rskip_ws_to(l, l.len() as int, l.len() as int);
    assert(l.subrange(2, l.len() as int) =~= l.skip(2));
}

/// The empty line trims to itself.
proof fn lemma_trim_empty()
    ensures
        trim_spec(Seq::<char>::empty()) == Seq::<char>::empty(),
{
    let e = Seq::<char>::empty();
    assert(skip_ws(e, 0) == 0);
    assert(rskip_ws(e, 0) == 0);
    assert(e.subrange(0, 0) =~= e);
}

/// Finding a character beyond a prefix is finding it in the suffix.
proof fn lemma_find_char_offset(pre: Seq<char>, rest: Seq<char>, c: char, from: int)
    requires
        0 <= from,
    ensures
        find_char(pre + rest, c, pre.len() + from) == (if find_char(rest, c, from) < 0 {
            -1
        } else {
            pre.len() + find_char(rest, c, from)
        }),
    decreases rest.len() - from,
{
    let s = pre + rest;
    if from >= rest.len() {
    } else {
        assert(s[pre.len() + from] == rest[from]);
        if rest[from] != c {
            lemma_find_char_offset(pre, rest, c, from + 1);
        }
    }
}

/// Splitting beyond a prefix is splitting the suffix.
proof fn lemma_split_offset(pre: Seq<char>, rest: Seq<char>, from: int)
    requires
        0 <= from <= rest.len(),
    ensures
        split_from(pre + rest, pre.len() + from) == split_from(rest, from),
    decreases rest.len() - from,
{
    let s = pre + rest;
    lemma_find_char_offset(pre, rest, '\n', from);
    let k = find_char(rest, '\n', from);
    crate::parse::lemma_find_char_range(rest, '\n', from);
    if k < 0 {
        assert(s.subrange(pre.len() + from, s.len() as int) =~= rest.subrange(
            from,
            rest.len() as int,
        ));
    } else {
        assert(s.subrange(pre.len() + from, pre.len() + k) =~= rest.subrange(from, k));
        lemma_split_offset(pre, rest, k + 1);
        assert(split_from(s, pre.len() + from) =~= split_from(rest, from));
    }
}

/// The first line of a text that starts with a newline-free line and its
/// newline peels off.
proof fn lemma_split_peel(a: Seq<char>, rest: Seq<char>)
    requires
        forall|j: int| 0 <= j < a.len() ==> #[trigger] a[j] != '\n',
    ensures
        split_from(a + seq!['\n'] + rest, 0) == seq![a] + split_from(rest, 0),
{
    let s = a + seq!['\n'] + rest;
    assert(s[a.len() as int] == '\n');
    assert forall|j: int| 0 <= j < a.len() implies s[j] != '\n' by {
        assert(s[j] == a[j]);
    }
    lemma_find_char_hit(s, '\n', 0, a.len() as int);
    assert(s.subrange(0, a.len() as int) =~= a);
    assert((a + seq!['\n']) + rest =~= s);
    lemma_split_offset(a + seq!['\n'], rest, 0);
    assert(split_from(s, a.len() as int + 1) == split_from(rest, 0));
    assert(split_from(s, 0) =~= seq![a] + split_from(rest, 0));
}

/// Running lines over a concatenation runs them in order.
proof fn lemma_run_lines_concat(st: ParserStateV, l1: Seq<Seq<char>>, l2: Seq<Seq<char>>)
    ensures
        run_lines(st, l1 + l2) == (match run_lines(st, l1) {
            Some(st2) => run_lines(st2, l2),
            None => None,
        }),
    decreases l1.len(),
{
    if l1.len() == 0 {
        assert(l1 + l2 =~= l2);
    } else {
        assert((l1 + l2)[0] == l1[0]);
        match line_step(st, l1[0]) {
            Some(st2) => {
                assert((l1 + l2).drop_first() =~= l1.drop_first() + l2);
                lemma_run_lines_concat(st2, l1.drop_first(), l2);
            },
            None => {},
        }
    }
}


/// A configuration key-value line: no blank edges, a `#` nowhere first, and
/// the single `=` where the writer puts it.
proof fn lemma_kv_line(line: Seq<char>, eq_at: int)
    requires
        line.len() > 0,
        !is_space_char(line[0]),
        !is_space_char(line[line.len() - 1]),
        line[0] != '#',
        line[0] != '[',
        0 <= eq_at < line.len(),
        line[eq_at] == '=',
        forall|j: int| 0 <= j < eq_at ==> line[j] != '=',
    ensures
        trim_spec(line) == line,
        find_char(line, '=', 0) == eq_at,
{
    lemma_trim_noop(line);
    lemma_find_char_hit(line, '=', 0, eq_at);
}

/// The `port` line sets the port.
proof fn lemma_step_port(st: ParserStateV, port: u16)
    requires
        st.list is None,
        st.section == Section::Top,
    ensures
        line_step(st, "port = "@ + dec_str(port as nat)) == Some(
            ParserStateV { port: Some(port), ..st },
        ),
{
    reveal_strlit("port = ");
    reveal_strlit("port");
    reveal_strlit("[");
    lemma_dec_str_val(port as nat);
    let d = dec_str(port as nat);
    let line = "port = "@ + d;
    assert(line[line.len() - 1] == d[d.len() - 1]);
    assert(crate::text::is_digit(d[d.len() - 1]));
    assert(line[0] == 'p');
    lemma_kv_line(line, 5);
    lemma_skip_ws_to(line, 0, 0);
    lemma_rskip_ws_to(line, 5, 4);
    assert(crate::parse::trim_range(line, 0, 5) =~= "port"@);
    assert(line[6] == ' ' && is_space_char(line[6]));
    assert(line.len() > 7 && crate::text::is_digit(line[7]));
    lemma_skip_ws_to(line, 6, 7);
    lemma_rskip_ws_to(line, line.len() as int, line.len() as int);
    let value = crate::parse::trim_range(line, 6, line.len() as int);
    assert(value =~= d);
    assert(value != "["@) by {
        if value == "["@ {
            assert(value[0] == '[');
            assert(crate::text::is_digit(d[0]));
        }
    }
    assert(crate::parse::parse_port_spec(value) == Some(port));
    assert(line_step(st, line) =~= Some(ParserStateV { port: Some(port), ..st }));
}

/// A blank line changes nothing.
proof fn lemma_step_blank(st: ParserStateV)
    ensures
        line_step(st, Seq::<char>::empty()) == Some(st),
{
    reveal_strlit("]");
    lemma_trim_empty();
    assert(Seq::<char>::empty() != "]"@) by {
        assert("]"@.len() == 1);
    }
}

/// The `[autostart]` header enters the autostart table.
proof fn lemma_step_autostart(st: ParserStateV)
    requires
        st.list is None,
    ensures
        line_step(st, "[autostart]"@) == Some(ParserStateV { section: Section::Autostart, ..st }),
{
    reveal_strlit("[autostart]");
    let line = "[autostart]"@;
    lemma_trim_noop(line);
    assert(line_step(st, line) =~= Some(ParserStateV { section: Section::Autostart, ..st }));
}

/// A boolean key line of the autostart table sets its field.
proof fn lemma_bool_value(line: Seq<char>, eq_at: int, b: bool)
    requires
        line =~= line.take(eq_at + 2) + bool_seq(b),
        0 <= eq_at,
        line.len() > eq_at + 2,
        line[eq_at + 1] == ' ',
    ensures
        crate::parse::trim_range(line, eq_at + 1, line.len() as int) == bool_seq(b),
        crate::parse::parse_bool_spec(
            crate::parse::trim_range(line, eq_at + 1, line.len() as int),
        ) == Some(b),
        crate::parse::trim_range(line, eq_at + 1, line.len() as int) != "["@,
        crate::parse::trim_range(line, eq_at + 1, line.len() as int) != "[]"@,
{
    reveal_strlit("true");
    reveal_strlit("false");
    reveal_strlit("[");
    reveal_strlit("[]");
    let v = bool_seq(b);
    assert(line[eq_at + 2] == v[0]);
    assert(v[0] == 't' || v[0] == 'f');
    assert(line[line.len() - 1] == v[v.len() - 1]);
    lemma_skip_ws_to(line, eq_at + 1, eq_at + 2);
    lemma_rskip_ws_to(line, line.len() as int, line.len() as int);
    let value = crate::parse::trim_range(line, eq_at + 1, line.len() as int);
    assert(value =~= v);
    if b {
        assert(value != "["@ && value != "[]"@);
    } else {
        assert(value != "["@ && value != "[]"@);
    }
}

/// The `enabled` line sets the flag.
proof fn lemma_step_enabled(st: ParserStateV, b: bool)
    requires
        st.list is None,
        st.section == Section::Autostart,
    ensures
        line_step(st, "enabled = "@ + bool_seq(b)) == Some(
            ParserStateV { enabled: Some(b), ..st },
        ),
{
    reveal_strlit("enabled = ");
    reveal_strlit("enabled");
    reveal_strlit("port");
    reveal_strlit("discovery_paths");
    reveal_strlit("true");
    reveal_strlit("false");
    let line = "enabled = "@ + bool_seq(b);
    assert(line[0] == 'e');
    assert(line[line.len() - 1] == bool_seq(b)[bool_seq(b).len() - 1]);
    if b {
        lemma_kv_line(line, 8);
    } else {
        lemma_kv_line(line, 8);
    }
    lemma_skip_ws_to(line, 0, 0);
    lemma_rskip_ws_to(line, 8, 7);
    assert(crate::parse::trim_range(line, 0, 8) =~= "enabled"@);
    assert(line =~= line.take(10) + bool_seq(b));
    lemma_bool_value(line, 8, b);
    assert(line_step(st, line) =~= Some(ParserStateV { enabled: Some(b), ..st }));
}

/// The `minimized` line sets the flag.
proof fn lemma_step_minimized(st: ParserStateV, b: bool)
    requires
        st.list is None,
        st.section == Section::Autostart,
    ensures
        line_step(st, "minimized = "@ + bool_seq(b)) == Some(
            ParserStateV { minimized: Some(b), ..st },
        ),
{
    reveal_strlit("minimized = ");
    reveal_strlit("minimized");
    reveal_strlit("enabled");
    reveal_strlit("port");
    reveal_strlit("discovery_paths");
    reveal_strlit("true");
    reveal_strlit("false");
    let line = "minimized = "@ + bool_seq(b);
    assert(line[0] == 'm');
    assert(line[line.len() - 1] == bool_seq(b)[bool_seq(b).len() - 1]);
    lemma_kv_line(line, 10);
    lemma_skip_ws_to(line, 0, 0);
    lemma_rskip_ws_to(line, 10, 9);
    assert(crate::parse::trim_range(line, 0, 10) =~= "minimized"@);
    assert(line =~= line.take(12) + bool_seq(b));
    lemma_bool_value(line, 10, b);
    assert(line_step(st, line) =~= Some(ParserStateV { minimized: Some(b), ..st }));
}

/// The `discovery_paths = [` line opens the path list.
proof fn lemma_step_paths_open(st: ParserStateV)
    requires
        st.list is None,
        st.section == Section::Top,
    ensures
        line_step(st, "discovery_paths = ["@) == Some(
            ParserStateV {
                list: Some(ListTarget::Paths),
                path_items: Seq::empty(),
                module_items: Seq::empty(),
                ..st
            },
        ),
{
    reveal_strlit("discovery_paths = [");
    reveal_strlit("discovery_paths");
    reveal_strlit("[");
    let line = "discovery_paths = ["@;
    lemma_kv_line(line, 16);
    lemma_skip_ws_to(line, 0, 0);
    lemma_rskip_ws_to(line, 16, 15);
    assert(crate::parse::trim_range(line, 0, 16) =~= "discovery_paths"@);
    lemma_skip_ws_to(line, 17, 18);
    lemma_rskip_ws_to(line, line.len() as int, line.len() as int);
    assert(crate::parse::trim_range(line, 17, line.len() as int) =~= "["@);
    assert(line_step(st, line) =~= Some(
        ParserStateV {
            list: Some(ListTarget::Paths),
            path_items: Seq::empty(),
            module_items: Seq::empty(),
            ..st
        },
    ));
}

/// The `discovery_paths = []` line sets the empty path list.
proof fn lemma_step_paths_empty(st: ParserStateV)
    requires
        st.list is None,
        st.section == Section::Top,
    ensures
        line_step(st, "discovery_paths = []"@) == Some(
            ParserStateV { discovery_paths: Some(Seq::empty()), ..st },
        ),
{
    reveal_strlit("discovery_paths = []");
    reveal_strlit("discovery_paths");
    reveal_strlit("port");
    reveal_strlit("[");
    reveal_strlit("[]");
    let line = "discovery_paths = []"@;
    lemma_kv_line(line, 16);
    lemma_skip_ws_to(line, 0, 0);
    lemma_rskip_ws_to(line, 16, 15);
    assert(crate::parse::trim_range(line, 0, 16) =~= "discovery_paths"@);
    lemma_skip_ws_to(line, 17, 18);
    lemma_rskip_ws_to(line, line.len() as int, line.len() as int);
    assert(crate::parse::trim_range(line, 17, line.len() as int) =~= "[]"@);
    assert(line_step(st, line) =~= Some(
        ParserStateV { discovery_paths: Some(Seq::empty()), ..st },
    ));
}

/// The `modules = [` line opens the module list.
proof fn lemma_step_modules_open(st: ParserStateV)
    requires
        st.list is None,
        st.section == Section::Autostart,
    ensures
        line_step(st, "modules = ["@) == Some(
            ParserStateV {
                list: Some(ListTarget::Modules),
                path_items: Seq::empty(),
                module_items: Seq::empty(),
                ..st
            },
        ),
{
    reveal_strlit("modules = [");
    reveal_strlit("modules");
    reveal_strlit("discovery_paths");
    reveal_strlit("[");
    let line = "modules = ["@;
    lemma_kv_line(line, 8);
    lemma_skip_ws_to(line, 0, 0);
    lemma_rskip_ws_to(line, 8, 7);
    assert(crate::parse::trim_range(line, 0, 8) =~= "modules"@);
    lemma_skip_ws_to(line, 9, 10);
    lemma_rskip_ws_to(line, line.len() as int, line.len() as int);
    assert(crate::parse::trim_range(line, 9, line.len() as int) =~= "["@);
    assert(line_step(st, line) =~= Some(
        ParserStateV {
            list: Some(ListTarget::Modules),
            path_items: Seq::empty(),
            module_items: Seq::empty(),
            ..st
        },
    ));
}

/// The `]` line closes the open list.
proof fn lemma_step_close(st: ParserStateV)
    requires
        st.list is Some,
    ensures
        line_step(st, "]"@) == Some(crate::parse::close_list_spec(st, st.list->0)),
{
    reveal_strlit("]");
    let line = "]"@;
    lemma_trim_noop(line);
}


/// A path line inside the open path list appends the path.
proof fn lemma_step_path_item(st: ParserStateV, p: Seq<char>)
    requires
        st.list == Some(ListTarget::Paths),
        plain_str(p),
    ensures
        line_step(st, path_line(p).drop_last()) == Some(
            ParserStateV { path_items: st.path_items.push(p), ..st },
        ),
{
    reveal_strlit("  \"");
    reveal_strlit("\",");
    reveal_strlit("\",\n");
    reveal_strlit("]");
    reveal_strlit("#");
    let raw = path_line(p).drop_last();
    assert(raw =~= "  \""@ + p + "\","@);
    assert(raw.len() == 5 + p.len());
    assert(raw[0] == ' ' && raw[1] == ' ' && raw[2] == '"');
    assert(raw[raw.len() - 1] == ',');
    lemma_trim_two_spaces(raw);
    let line = raw.skip(2);
    assert(line.len() == 3 + p.len());
    assert(line[0] == '"');
    assert(line[line.len() - 1] == ',');
    assert(line != "]"@) by {
        if line == "]"@ {
            assert(line[0] == ']');
        }
    }
    let item = crate::parse::strip_comma(line);
    assert(item =~= line.drop_last());
    assert(item.len() == 2 + p.len());
    assert(item[0] == '"');
    assert(item[item.len() - 1] == '"') by {
        assert(item[item.len() - 1] == raw[3 + p.len() as int]);
    }
    assert forall|i: int| 0 < i < item.len() - 1 implies item[i] != '"' by {
        assert(item[i] == p[i - 1]);
    }
    assert(crate::parse::parse_string_spec(item) == Some(p)) by {
        assert(item.subrange(1, item.len() - 1) =~= p);
    }
    assert(line_step(st, raw) =~= Some(ParserStateV { path_items: st.path_items.push(p), ..st }));
}

/// A module entry line inside the open module list appends the entry, with
/// or without its trailing comma.
#[verifier::rlimit(100)]
proof fn lemma_step_entry_item(st: ParserStateV, m: ModuleEntryV, comma: bool)
    requires
        st.list == Some(ListTarget::Modules),
        plain_entry(m),
    ensures
        line_step(
            st,
            entry_text(m) + (if comma {
                ","@
            } else {
                Seq::<char>::empty()
            }),
        ) == Some(ParserStateV { module_items: st.module_items.push(m), ..st }),
{
    reveal_strlit(",");
    reveal_strlit("]");
    let suffix: Seq<char> = if comma {
        ","@
    } else {
        Seq::<char>::empty()
    };
    let raw = entry_text(m) + suffix;
    match m {
        ModuleEntryV::Simple(name) => {
            reveal_strlit("  \"");
            reveal_strlit("\"");
            assert(raw.len() == 4 + name.len() + suffix.len());
            assert(raw[0] == ' ' && raw[1] == ' ' && raw[2] == '"');
            assert(raw[3 + name.len() as int] == '"');
            assert(raw[raw.len() - 1] == (if comma {
                ','
            } else {
                '"'
            }));
            lemma_trim_two_spaces(raw);
            let line = raw.skip(2);
            assert(line[0] == '"');
            assert(line != "]"@) by {
                if line == "]"@ {
                    assert(line[0] == ']');
                }
            }
            let item = crate::parse::strip_comma(line);
            assert(item =~= "\""@ + name + "\""@);
            assert(item[0] == '"' && item[item.len() - 1] == '"');
            assert forall|i: int| 0 < i < item.len() - 1 implies item[i] != '"' by {
                assert(item[i] == name[i - 1]);
            }
            assert(crate::parse::parse_string_spec(item) == Some(name)) by {
                assert(item.subrange(1, item.len() - 1) =~= name);
            }
            assert(line_step(st, raw) =~= Some(
                ParserStateV { module_items: st.module_items.push(m), ..st },
            ));
        },
        ModuleEntryV::Full { name, args } => {
            reveal_strlit("  { name = \"");
            reveal_strlit("{ name = \"");
            reveal_strlit("\", args = \"");
            reveal_strlit("\" }");
            reveal_strlit("{ name = ");
            reveal_strlit(", args = ");
            reveal_strlit(" }");
            assert(raw =~= "  { name = \""@ + name + "\", args = \""@ + args + "\" }"@ + suffix);
            let nl = name.len() as int;
            let al = args.len() as int;
            assert(raw.len() == 26 + nl + al + suffix.len());
            assert(raw[0] == ' ' && raw[1] == ' ' && raw[2] == '{');
            assert(raw[raw.len() - 1] == (if comma {
                ','
            } else {
                '}'
            }));
            lemma_trim_two_spaces(raw);
            let line = raw.skip(2);
            assert(line != "]"@) by {
                if line == "]"@ {
                    assert(line[0] == ']');
                }
            }
            let item = crate::parse::strip_comma(line);
            assert(item =~= "{ name = \""@ + name + "\", args = \""@ + args + "\" }"@);
            assert(item.len() == 24 + nl + al);
            // the four quotes and the quote-free stretches between them
            let q1: int = 9;
            let q2: int = 10 + nl;
            let q3: int = 20 + nl;
            let q4: int = 21 + nl + al;
            assert(item[q1] == '"' && item[q2] == '"' && item[q3] == '"' && item[q4] == '"');
            assert(item[0] == '{');
            assert(crate::parse::parse_string_spec(item) is None);
            assert forall|j: int| 0 <= j < q1 implies item[j] != '"' by {
                assert(item[j] == "{ name = \""@[j + 2 - 2]);
            }
            assert forall|j: int| q1 < j < q2 implies item[j] != '"' by {
                assert(item[j] == name[j - 10]);
            }
            assert forall|j: int| q2 < j < q3 implies item[j] != '"' by {
                assert(item[j] == "\", args = \""@[j - 10 - nl]);
            }
            assert forall|j: int| q3 < j < q4 implies item[j] != '"' by {
                assert(item[j] == args[j - 21 - nl]);
            }
            assert forall|j: int| q4 < j < item.len() implies item[j] != '"' by {
                assert(item[j] == "\" }"@[j - 21 - nl - al]);
            }
            lemma_find_char_hit(item, '"', 0, q1);
            lemma_find_char_hit(item, '"', q1 + 1, q2);
            lemma_find_char_hit(item, '"', q2 + 1, q3);
            lemma_find_char_hit(item, '"', q3 + 1, q4);
            lemma_find_char_miss(item, '"', q4 + 1);
            assert(item.take(q1) =~= "{ name = "@);
            assert(item.subrange(q2 + 1, q3) =~= ", args = "@);
            assert(item.subrange(q4 + 1, item.len() as int) =~= " }"@);
            assert(item.subrange(q1 + 1, q2) =~= name);
            assert(item.subrange(q3 + 1, q4) =~= args);
            assert(crate::parse::parse_table_spec(item) == Some(m));
            assert(line_step(st, raw) =~= Some(
                ParserStateV { module_items: st.module_items.push(m), ..st },
            ));
        },
    }
}


/// The lines of a written non-empty path list, one path each.
pub open spec fn path_item_lines(ps: Seq<Seq<char>>) -> Seq<Seq<char>> {
    Seq::new(ps.len(), |i: int| path_line(ps[i]).drop_last())
}

/// The lines of a written module list, a comma after each but the last.
pub open spec fn module_item_lines(ms: Seq<ModuleEntryV>) -> Seq<Seq<char>> {
    Seq::new(
        ms.len(),
        |i: int|
            entry_text(ms[i]) + (if i < ms.len() - 1 {
                ","@
            } else {
                Seq::<char>::empty()
            }),
    )
}

/// The written discovery-path segment, as lines.
pub open spec fn paths_segment_lines(ps: Seq<Seq<char>>) -> Seq<Seq<char>> {
    if ps.len() > 0 {
        seq!["discovery_paths = ["@] + path_item_lines(ps) + seq!["]"@, Seq::<char>::empty()]
    } else {
        seq!["discovery_paths = []"@, Seq::<char>::empty(), Seq::<char>::empty()]
    }
}

/// Every line of the written configuration, in order.
pub open spec fn format_lines(c: UserConfigV) -> Seq<Seq<char>> {
    seq!["port = "@ + dec_str(c.port as nat)] + paths_segment_lines(c.discovery_paths) + seq![
        "[autostart]"@,
        "enabled = "@ + bool_seq(c.autostart.enabled),
        "minimized = "@ + bool_seq(c.autostart.minimized),
        "modules = ["@,
    ] + module_item_lines(c.autostart.modules) + seq!["]"@, Seq::<char>::empty()]
}

/// The path lines decompose at the front.
proof fn lemma_path_lines_front(ps: Seq<Seq<char>>)
    requires
        ps.len() > 0,
    ensures
        path_lines(ps) == path_line(ps[0]) + path_lines(ps.drop_first()),
    decreases ps.len(),
{
    if ps.len() == 1 {
        assert(ps.drop_last() =~= Seq::<Seq<char>>::empty());
        assert(ps.drop_first() =~= Seq::<Seq<char>>::empty());
        assert(path_lines(ps) =~= path_line(ps[0]) + path_lines(ps.drop_first()));
    } else {
        lemma_path_lines_front(ps.drop_last());
        assert(ps.drop_last()[0] == ps[0]);
        assert(ps.drop_last().drop_first() =~= ps.drop_first().drop_last());
        assert(ps.drop_first().last() == ps.last());
        assert(path_lines(ps) == path_lines(ps.drop_last()) + path_line(ps.last()));
        assert(path_lines(ps.drop_first()) == path_lines(ps.drop_first().drop_last()) + path_line(
            ps.drop_first().last(),
        ));
        assert(path_lines(ps) =~= path_line(ps[0]) + path_lines(ps.drop_first()));
    }
}

/// The entry lines decompose at the front.
proof fn lemma_entry_lines_front(ms: Seq<ModuleEntryV>)
    requires
        ms.len() > 0,
    ensures
        entry_lines(ms) == entry_text(ms[0]) + ",\n"@ + entry_lines(ms.drop_first()),
    decreases ms.len(),
{
    if ms.len() == 1 {
        assert(ms.drop_last() =~= Seq::<ModuleEntryV>::empty());
        assert(ms.drop_first() =~= Seq::<ModuleEntryV>::empty());
        assert(entry_lines(ms) =~= entry_text(ms[0]) + ",\n"@ + entry_lines(ms.drop_first()));
    } else {
        lemma_entry_lines_front(ms.drop_last());
        assert(ms.drop_last()[0] == ms[0]);
        assert(ms.drop_last().drop_first() =~= ms.drop_first().drop_last());
        assert(ms.drop_first().last() == ms.last());
        assert(entry_lines(ms) =~= entry_text(ms[0]) + ",\n"@ + entry_lines(ms.drop_first()));
    }
}

/// A plain path's written line is newline-free.
proof fn lemma_path_line_plain(p: Seq<char>)
    requires
        plain_str(p),
    ensures
        forall|j: int|
            0 <= j < path_line(p).drop_last().len() ==> #[trigger] path_line(p).drop_last()[j]
                != '\n',
        path_line(p) == path_line(p).drop_last() + seq!['\n'],
{
    reveal_strlit("  \"");
    reveal_strlit("\",\n");
    let raw = path_line(p).drop_last();
    assert(raw =~= "  \""@ + p + "\","@) by {
        reveal_strlit("\",");
    }
    assert(path_line(p) =~= raw + seq!['\n']);
    assert forall|j: int| 0 <= j < raw.len() implies #[trigger] raw[j] != '\n' by {
        reveal_strlit("\",");
        if j < 3 {
        } else if j < 3 + p.len() {
            assert(raw[j] == p[j - 3]);
        }
    }
}

/// A plain entry's written text is newline-free.
proof fn lemma_entry_text_plain(m: ModuleEntryV)
    requires
        plain_entry(m),
    ensures
        forall|j: int| 0 <= j < entry_text(m).len() ==> #[trigger] entry_text(m)[j] != '\n',
{
    match m {
        ModuleEntryV::Simple(name) => {
            reveal_strlit("  \"");
            reveal_strlit("\"");
            assert forall|j: int| 0 <= j < entry_text(m).len() implies #[trigger] entry_text(m)[j]
                != '\n' by {
                if 3 <= j < 3 + name.len() {
                    assert(entry_text(m)[j] == name[j - 3]);
                }
            }
        },
        ModuleEntryV::Full { name, args } => {
            reveal_strlit("  { name = \"");
            reveal_strlit("\", args = \"");
            reveal_strlit("\" }");
            let nl = name.len() as int;
            let al = args.len() as int;
            assert forall|j: int| 0 <= j < entry_text(m).len() implies #[trigger] entry_text(m)[j]
                != '\n' by {
                if 12 <= j < 12 + nl {
                    assert(entry_text(m)[j] == name[j - 12]);
                } else if 23 + nl <= j < 23 + nl + al {
                    assert(entry_text(m)[j] == args[j - 23 - nl]);
                }
            }
        },
    }
}

/// The written path lines split off one line per path.
proof fn lemma_split_path_lines(ps: Seq<Seq<char>>, rest: Seq<char>)
    requires
        forall|i: int| 0 <= i < ps.len() ==> plain_str(#[trigger] ps[i]),
    ensures
        split_from(path_lines(ps) + rest, 0) == path_item_lines(ps) + split_from(rest, 0),
    decreases ps.len(),
{
    if ps.len() == 0 {
        assert(path_lines(ps) + rest =~= rest);
        assert(path_item_lines(ps) + split_from(rest, 0) =~= split_from(rest, 0));
    } else {
        lemma_path_lines_front(ps);
        lemma_path_line_plain(ps[0]);
        let line = path_line(ps[0]).drop_last();
        let tail_text = path_lines(ps.drop_first()) + rest;
        assert(path_lines(ps) + rest =~= line + seq!['\n'] + tail_text);
        lemma_split_peel(line, tail_text);
        lemma_split_path_lines(ps.drop_first(), rest);
        assert(path_item_lines(ps) =~= seq![line] + path_item_lines(ps.drop_first()));
        assert(split_from(path_lines(ps) + rest, 0) =~= path_item_lines(ps) + split_from(rest, 0));
    }
}

/// The written module block splits off one line per entry.
proof fn lemma_split_module_lines(ms: Seq<ModuleEntryV>, rest: Seq<char>)
    requires
        forall|i: int| 0 <= i < ms.len() ==> plain_entry(#[trigger] ms[i]),
    ensures
        split_from(modules_block(ms) + rest, 0) == module_item_lines(ms) + split_from(rest, 0),
    decreases ms.len(),
{
    reveal_strlit(",\n");
    reveal_strlit("\n");
    reveal_strlit(",");
    if ms.len() == 0 {
        assert(modules_block(ms) + rest =~= rest);
        assert(module_item_lines(ms) + split_from(rest, 0) =~= split_from(rest, 0));
    } else if ms.len() == 1 {
        lemma_entry_text_plain(ms[0]);
        let line = entry_text(ms[0]);
        assert(ms.drop_last() =~= Seq::<ModuleEntryV>::empty());
        assert(modules_block(ms) + rest =~= line + seq!['\n'] + rest);
        lemma_split_peel(line, rest);
        assert(module_item_lines(ms) =~= seq![line]);
        assert(split_from(modules_block(ms) + rest, 0) =~= module_item_lines(ms) + split_from(
            rest,
            0,
        ));
    } else {
        lemma_entry_text_plain(ms[0]);
        let line = entry_text(ms[0]) + ","@;
        assert forall|j: int| 0 <= j < line.len() implies #[trigger] line[j] != '\n' by {
            if j < entry_text(ms[0]).len() {
                assert(line[j] == entry_text(ms[0])[j]);
            } else {
                assert(line[j] == ',');
            }
        }
        let tail_text = modules_block(ms.drop_first()) + rest;
        assert(modules_block(ms) + rest =~= line + seq!['\n'] + tail_text) by {
            lemma_entry_lines_front(ms.drop_last());
            assert(ms.drop_last()[0] == ms[0]);
            assert(ms.drop_last().drop_first() =~= ms.drop_first().drop_last());
            assert(ms.drop_first().last() == ms.last());
        }
        lemma_split_peel(line, tail_text);
        lemma_split_module_lines(ms.drop_first(), rest);
        assert(module_item_lines(ms) =~= seq![line] + module_item_lines(ms.drop_first()));
        assert(split_from(modules_block(ms) + rest, 0) =~= module_item_lines(ms) + split_from(
            rest,
            0,
        ));
    }
}


/// Running the path lines appends every path to the open list.
proof fn lemma_run_path_items(st: ParserStateV, ps: Seq<Seq<char>>)
    requires
        st.list == Some(ListTarget::Paths),
        forall|i: int| 0 <= i < ps.len() ==> plain_str(#[trigger] ps[i]),
    ensures
        run_lines(st, path_item_lines(ps)) == Some(
            ParserStateV { path_items: st.path_items + ps, ..st },
        ),
    decreases ps.len(),
{
    if ps.len() == 0 {
        assert(path_item_lines(ps).len() == 0);
        assert(st.path_items + ps =~= st.path_items);
        assert(ParserStateV { path_items: st.path_items + ps, ..st } =~= st);
    } else {
        let lines = path_item_lines(ps);
        assert(lines[0] == path_line(ps[0]).drop_last());
        lemma_step_path_item(st, ps[0]);
        let st1 = ParserStateV { path_items: st.path_items.push(ps[0]), ..st };
        assert(lines.drop_first() =~= path_item_lines(ps.drop_first()));
        lemma_run_path_items(st1, ps.drop_first());
        assert(st1.path_items + ps.drop_first() =~= st.path_items + ps);
        assert(run_lines(st, lines) == Some(ParserStateV { path_items: st.path_items + ps, ..st }));
    }
}

/// Running the module lines appends every entry to the open list.
proof fn lemma_run_module_items(st: ParserStateV, ms: Seq<ModuleEntryV>)
    requires
        st.list == Some(ListTarget::Modules),
        forall|i: int| 0 <= i < ms.len() ==> plain_entry(#[trigger] ms[i]),
    ensures
        run_lines(st, module_item_lines(ms)) == Some(
            ParserStateV { module_items: st.module_items + ms, ..st },
        ),
    decreases ms.len(),
{
    if ms.len() == 0 {
        assert(module_item_lines(ms).len() == 0);
        assert(st.module_items + ms =~= st.module_items);
        assert(ParserStateV { module_items: st.module_items + ms, ..st } =~= st);
    } else {
        let lines = module_item_lines(ms);
        let comma = ms.len() > 1;
        assert(lines[0] == entry_text(ms[0]) + (if comma {
            ","@
        } else {
            Seq::<char>::empty()
        }));
        lemma_step_entry_item(st, ms[0], comma);
        let st1 = ParserStateV { module_items: st.module_items.push(ms[0]), ..st };
        assert(lines.drop_first() =~= module_item_lines(ms.drop_first()));
        lemma_run_module_items(st1, ms.drop_first());
        assert(st1.module_items + ms.drop_first() =~= st.module_items + ms);
        assert(run_lines(st, lines) == Some(
            ParserStateV { module_items: st.module_items + ms, ..st },
        ));
    }
}

/// Running one more line before a tail.
proof fn lemma_run_cons(st: ParserStateV, line: Seq<char>, rest: Seq<Seq<char>>, st2: ParserStateV)
    requires
        line_step(st, line) == Some(st2),
    ensures
        run_lines(st, seq![line] + rest) == run_lines(st2, rest),
{
    let all = seq![line] + rest;
    assert(all[0] == line);
    assert(all.drop_first() =~= rest);
}

/// The text from the autostart header on splits into its lines.
#[verifier::rlimit(100)]
proof fn lemma_split_autostart_tail(en: bool, mi: bool, ms: Seq<ModuleEntryV>)
    requires
        forall|i: int| 0 <= i < ms.len() ==> plain_entry(#[trigger] ms[i]),
    ensures
        split_from(
            "[autostart]"@ + seq!['\n'] + ("enabled = "@ + bool_seq(en) + seq!['\n'] + (
            "minimized = "@ + bool_seq(mi) + seq!['\n'] + ("modules = ["@ + seq!['\n'] + (
            modules_block(ms) + ("]"@ + seq!['\n']))))),
            0,
        ) == seq![
            "[autostart]"@,
            "enabled = "@ + bool_seq(en),
            "minimized = "@ + bool_seq(mi),
            "modules = ["@,
        ] + module_item_lines(ms) + seq!["]"@, Seq::<char>::empty()],
{
    reveal_strlit("[autostart]");
    reveal_strlit("enabled = ");
    reveal_strlit("minimized = ");
    reveal_strlit("modules = [");
    reveal_strlit("]");
    reveal_strlit("true");
    reveal_strlit("false");
    let l_en = "enabled = "@ + bool_seq(en);
    let l_min = "minimized = "@ + bool_seq(mi);
    let t_mod = modules_block(ms) + ("]"@ + seq!['\n']);
    let t5 = "modules = ["@ + seq!['\n'] + t_mod;
    let t4 = l_min + seq!['\n'] + t5;
    let t3 = l_en + seq!['\n'] + t4;
    let t2 = "[autostart]"@ + seq!['\n'] + t3;
    assert forall|j: int| 0 <= j < l_en.len() implies #[trigger] l_en[j] != '\n' by {
        if j >= 10 {
            assert(l_en[j] == bool_seq(en)[j - 10]);
        }
    }
    assert forall|j: int| 0 <= j < l_min.len() implies #[trigger] l_min[j] != '\n' by {
        if j >= 12 {
            assert(l_min[j] == bool_seq(mi)[j - 12]);
        }
    }
    assert(split_from("]"@ + seq!['\n'], 0) =~= seq!["]"@, Seq::<char>::empty()]) by {
        lemma_split_peel("]"@, Seq::<char>::empty());
        assert(Seq::<char>::empty().subrange(0, 0) =~= Seq::<char>::empty());
        assert(split_from(Seq::<char>::empty(), 0) =~= seq![Seq::<char>::empty()]);
        assert("]"@ + seq!['\n'] + Seq::<char>::empty() =~= "]"@ + seq!['\n']);
    }
    lemma_split_module_lines(ms, "]"@ + seq!['\n']);
    assert(split_from(t_mod, 0) =~= module_item_lines(ms) + seq!["]"@, Seq::<char>::empty()]);
    lemma_split_peel("modules = ["@, t_mod);
    assert(split_from(t5, 0) =~= seq!["modules = ["@] + module_item_lines(ms) + seq![
        "]"@,
        Seq::<char>::empty(),
    ]);
    lemma_split_peel(l_min, t5);
    lemma_split_peel(l_en, t4);
    lemma_split_peel("[autostart]"@, t3);
    assert(split_from(t2, 0) =~= seq!["[autostart]"@, l_en, l_min, "modules = ["@]
        + module_item_lines(ms) + seq!["]"@, Seq::<char>::empty()]);
}

/// The discovery-path segment of the written text splits into its lines.
#[verifier::rlimit(100)]
proof fn lemma_split_paths_segment(ps: Seq<Seq<char>>, rest: Seq<char>)
    requires
        forall|i: int| 0 <= i < ps.len() ==> plain_str(#[trigger] ps[i]),
    ensures
        split_from("discovery_paths = "@ + paths_block(ps) + "\n\n"@ + rest, 0)
            == paths_segment_lines(ps) + split_from(rest, 0),
{
    reveal_strlit("discovery_paths = ");
    reveal_strlit("discovery_paths = [");
    reveal_strlit("discovery_paths = []");
    reveal_strlit("]");
    reveal_strlit("[");
    reveal_strlit("[]\n");
    reveal_strlit("\n");
    reveal_strlit("\n\n");
    let t = "discovery_paths = "@ + paths_block(ps) + "\n\n"@ + rest;
    lemma_split_peel(Seq::<char>::empty(), rest);
    if ps.len() > 0 {
        let t_paths = path_lines(ps) + ("]"@ + seq!['\n'] + (Seq::<char>::empty() + seq!['\n']
            + rest));
        lemma_split_peel("]"@, Seq::<char>::empty() + seq!['\n'] + rest);
        lemma_split_path_lines(ps, "]"@ + seq!['\n'] + (Seq::<char>::empty() + seq!['\n'] + rest));
        assert(split_from(t_paths, 0) =~= path_item_lines(ps) + (seq!["]"@, Seq::<char>::empty()]
            + split_from(rest, 0)));
        lemma_split_peel("discovery_paths = ["@, t_paths);
        assert(t =~= "discovery_paths = ["@ + seq!['\n'] + t_paths);
        assert(split_from(t, 0) =~= paths_segment_lines(ps) + split_from(rest, 0));
    } else {
        lemma_split_peel(Seq::<char>::empty(), Seq::<char>::empty() + seq!['\n'] + rest);
        lemma_split_peel(
            "discovery_paths = []"@,
            Seq::<char>::empty() + seq!['\n'] + (Seq::<char>::empty() + seq!['\n'] + rest),
        );
        assert(t =~= "discovery_paths = []"@ + seq!['\n'] + (Seq::<char>::empty() + seq!['\n'] + (
        Seq::<char>::empty() + seq!['\n'] + rest)));
        assert(split_from(t, 0) =~= paths_segment_lines(ps) + split_from(rest, 0));
    }
}

/// The written text splits into exactly the written lines.
#[verifier::rlimit(100)]
proof fn lemma_format_splits(c: UserConfigV)
    requires
        plain_config(c),
    ensures
        split_from(format_config_spec(c), 0) == format_lines(c),
{
    reveal_strlit("port = ");
    reveal_strlit("[autostart]");
    reveal_strlit("[autostart]\n");
    reveal_strlit("enabled = ");
    reveal_strlit("minimized = ");
    reveal_strlit("modules = [");
    reveal_strlit("modules = [\n");
    reveal_strlit("]");
    reveal_strlit("]\n");
    reveal_strlit("\n");
    reveal_strlit("\n\n");
    lemma_dec_str_val(c.port as nat);
    let t = format_config_spec(c);
    let ps = c.discovery_paths;
    let ms = c.autostart.modules;
    let l_port = "port = "@ + dec_str(c.port as nat);
    let l_en = "enabled = "@ + bool_seq(c.autostart.enabled);
    let l_min = "minimized = "@ + bool_seq(c.autostart.minimized);
    let t2 = "[autostart]"@ + seq!['\n'] + ("enabled = "@ + bool_seq(c.autostart.enabled)
        + seq!['\n'] + ("minimized = "@ + bool_seq(c.autostart.minimized) + seq!['\n'] + (
    "modules = ["@ + seq!['\n'] + (modules_block(ms) + ("]"@ + seq!['\n'])))));
    assert forall|j: int| 0 <= j < l_port.len() implies #[trigger] l_port[j] != '\n' by {
        if j >= 7 {
            assert(l_port[j] == dec_str(c.port as nat)[j - 7]);
            assert(crate::text::is_digit(l_port[j]));
        }
    }
    lemma_split_autostart_tail(c.autostart.enabled, c.autostart.minimized, ms);
    let tail_lines = seq!["[autostart]"@, l_en, l_min, "modules = ["@] + module_item_lines(ms)
        + seq!["]"@, Seq::<char>::empty()];
    lemma_split_paths_segment(ps, t2);
    let t1 = "discovery_paths = "@ + paths_block(ps) + "\n\n"@ + t2;
    assert(split_from(t1, 0) == paths_segment_lines(ps) + split_from(t2, 0));
    lemma_split_peel(l_port, t1);
    assert(t =~= l_port + seq!['\n'] + t1);
    assert(split_from(t, 0) =~= format_lines(c));
}

/// Running all written lines from the fresh reader state yields every field
/// of the configuration.
proof fn lemma_format_runs(c: UserConfigV)
    requires
        plain_config(c),
    ensures
        run_lines(init_state_spec(), format_lines(c)) matches Some(stf) && stf.list is None
            && crate::parse::fields_of(stf) == parsed_of(c),
{
    let ps = c.discovery_paths;
    let ms = c.autostart.modules;
    let st0 = init_state_spec();
    let l_port = "port = "@ + dec_str(c.port as nat);
    let l_en = "enabled = "@ + bool_seq(c.autostart.enabled);
    let l_min = "minimized = "@ + bool_seq(c.autostart.minimized);
    lemma_step_port(st0, c.port);
    let st1 = ParserStateV { port: Some(c.port), ..st0 };
    // the segment after the paths: autostart header, flags, module list
    let st2 = ParserStateV { discovery_paths: Some(ps), ..st1 };
    let tail_lines = seq!["[autostart]"@, l_en, l_min, "modules = ["@] + module_item_lines(ms)
        + seq!["]"@, Seq::<char>::empty()];
    lemma_step_autostart(st2);
    let st3 = ParserStateV { section: Section::Autostart, ..st2 };
    lemma_step_enabled(st3, c.autostart.enabled);
    let st4 = ParserStateV { enabled: Some(c.autostart.enabled), ..st3 };
    lemma_step_minimized(st4, c.autostart.minimized);
    let st5 = ParserStateV { minimized: Some(c.autostart.minimized), ..st4 };
    lemma_step_modules_open(st5);
    let st6 = ParserStateV {
        list: Some(ListTarget::Modules),
        path_items: Seq::empty(),
        module_items: Seq::empty(),
        ..st5
    };
    lemma_run_module_items(st6, ms);
    let st7 = ParserStateV { module_items: st6.module_items + ms, ..st6 };
    assert(st7.module_items =~= ms);
    lemma_step_close(st7);
    let st8 = crate::parse::close_list_spec(st7, ListTarget::Modules);
    lemma_step_blank(st8);
    assert(run_lines(st2, tail_lines) == Some(st8)) by {
        // assemble the tail segment stepwise
        let after_items = seq!["]"@, Seq::<char>::empty()];
        assert(run_lines(st8, Seq::<Seq<char>>::empty()) == Some(st8));
        lemma_run_cons(st8, Seq::<char>::empty(), Seq::<Seq<char>>::empty(), st8);
        assert(seq![Seq::<char>::empty()] + Seq::<Seq<char>>::empty() =~= seq![
            Seq::<char>::empty(),
        ]);
        assert(run_lines(st8, seq![Seq::<char>::empty()]) == Some(st8));
        lemma_run_cons(st7, "]"@, seq![Seq::<char>::empty()], st8);
        assert(seq!["]"@] + seq![Seq::<char>::empty()] =~= after_items);
        assert(run_lines(st7, after_items) == Some(st8));
        lemma_run_lines_concat(st6, module_item_lines(ms), after_items);
        assert(run_lines(st6, module_item_lines(ms) + after_items) == Some(st8));
        lemma_run_cons(st5, "modules = ["@, module_item_lines(ms) + after_items, st6);
        lemma_run_cons(st4, l_min, seq!["modules = ["@] + (module_item_lines(ms) + after_items), st5);
        lemma_run_cons(
            st3,
            l_en,
            seq![l_min] + (seq!["modules = ["@] + (module_item_lines(ms) + after_items)),
            st4,
        );
        lemma_run_cons(
            st2,
            "[autostart]"@,
            seq![l_en] + (seq![l_min] + (seq!["modules = ["@] + (module_item_lines(ms)
                + after_items))),
            st3,
        );
        assert(seq!["[autostart]"@] + (seq![l_en] + (seq![l_min] + (seq!["modules = ["@] + (
        module_item_lines(ms) + after_items)))) =~= tail_lines);
    }
    // the paths segment takes st1 to st2
    assert(run_lines(st1, paths_segment_lines(ps)) == Some(st2)) by {
        if ps.len() > 0 {
            lemma_step_paths_open(st1);
            let sa = ParserStateV {
                list: Some(ListTarget::Paths),
                path_items: Seq::empty(),
                module_items: Seq::empty(),
                ..st1
            };
            lemma_run_path_items(sa, ps);
            let sb = ParserStateV { path_items: sa.path_items + ps, ..sa };
            assert(sb.path_items =~= ps);
            lemma_step_close(sb);
            let sc = crate::parse::close_list_spec(sb, ListTarget::Paths);
            lemma_step_blank(sc);
            assert(sc =~= st2);
            let after = seq!["]"@, Seq::<char>::empty()];
            assert(run_lines(sc, Seq::<Seq<char>>::empty()) == Some(sc));
            lemma_run_cons(sc, Seq::<char>::empty(), Seq::<Seq<char>>::empty(), sc);
            assert(seq![Seq::<char>::empty()] + Seq::<Seq<char>>::empty() =~= seq![
                Seq::<char>::empty(),
            ]);
            lemma_run_cons(sb, "]"@, seq![Seq::<char>::empty()], sc);
            assert(seq!["]"@] + seq![Seq::<char>::empty()] =~= after);
            assert(run_lines(sb, after) == Some(sc));
            lemma_run_lines_concat(sa, path_item_lines(ps), after);
            lemma_run_cons(st1, "discovery_paths = ["@, path_item_lines(ps) + after, sa);
            assert(seq!["discovery_paths = ["@] + (path_item_lines(ps) + after)
                =~= paths_segment_lines(ps));
            assert(run_lines(st1, paths_segment_lines(ps)) == Some(st2));
        } else {
            lemma_step_paths_empty(st1);
            let sa = ParserStateV { discovery_paths: Some(Seq::<Seq<char>>::empty()), ..st1 };
            assert(sa =~= st2);
            lemma_step_blank(sa);
            assert(run_lines(sa, Seq::<Seq<char>>::empty()) == Some(sa));
            lemma_run_cons(sa, Seq::<char>::empty(), Seq::<Seq<char>>::empty(), sa);
            assert(seq![Seq::<char>::empty()] + Seq::<Seq<char>>::empty() =~= seq![
                Seq::<char>::empty(),
            ]);
            lemma_run_cons(sa, Seq::<char>::empty(), seq![Seq::<char>::empty()], sa);
            assert(seq![Seq::<char>::empty()] + seq![Seq::<char>::empty()] =~= seq![
                Seq::<char>::empty(),
                Seq::<char>::empty(),
            ]);
            lemma_run_cons(
                st1,
                "discovery_paths = []"@,
                seq![Seq::<char>::empty(), Seq::<char>::empty()],
                sa,
            );
            assert(seq!["discovery_paths = []"@] + seq![
                Seq::<char>::empty(),
                Seq::<char>::empty(),
            ] =~= paths_segment_lines(ps));
            assert(run_lines(st1, paths_segment_lines(ps)) == Some(st2));
        }
    }
    lemma_run_lines_concat(st1, paths_segment_lines(ps), tail_lines);
    lemma_run_cons(st0, l_port, paths_segment_lines(ps) + tail_lines, st1);
    assert(seq![l_port] + (paths_segment_lines(ps) + tail_lines) =~= format_lines(c));
    assert(run_lines(st0, format_lines(c)) == Some(st8));
    assert(st8.list is None);
    assert(crate::parse::fields_of(st8) =~= parsed_of(c));
}

/// The configuration format round-trips: parsing the written text of any
/// plain configuration yields every one of its fields.
pub proof fn lemma_config_round_trip(c: UserConfigV)
    requires
        plain_config(c),
    ensures
        parse_config_spec(format_config_spec(c)) == Some(parsed_of(c)),
{
    lemma_format_splits(c);
    lemma_format_runs(c);
}

/// Reading back a written plain configuration restores it exactly,
/// whatever the defaults at hand: every field was present in the text.
pub proof fn lemma_round_trip_restores(c: UserConfigV, d: UserConfigV)
    requires
        plain_config(c),
    ensures
        crate::parse::merge_spec(parsed_of(c), d) == c,
{
    assert(crate::parse::merge_spec(parsed_of(c), d) =~= c);
}

} // verus!
