//! Desktop-entry files: the primary group's `Name`, `Icon`, `Exec` and
//! `NoDisplay` keys.

use vstd::prelude::*;

use crate::bytes::{
    byte_strings, bytes_eq, find_bytes, find_from, lemma_find_from, slice_to_vec, split_bytes,
    split_spec, trim_end_spec, trim_start_spec,
};

verus! {

/// `[Desktop Entry]`
pub open spec fn group_header() -> Seq<u8> {
    seq![91u8, 68u8, 101u8, 115u8, 107u8, 116u8, 111u8, 112u8, 32u8, 69u8, 110u8, 116u8, 114u8, 121u8, 93u8]
}

pub open spec fn key_name() -> Seq<u8> {
    seq![78u8, 97u8, 109u8, 101u8]
}

pub open spec fn key_icon() -> Seq<u8> {
    seq![73u8, 99u8, 111u8, 110u8]
}

pub open spec fn key_exec() -> Seq<u8> {
    seq![69u8, 120u8, 101u8, 99u8]
}

pub open spec fn key_no_display() -> Seq<u8> {
    seq![78u8, 111u8, 68u8, 105u8, 115u8, 112u8, 108u8, 97u8, 121u8]
}

/// `true`
pub open spec fn word_true() -> Seq<u8> {
    seq![116u8, 114u8, 117u8, 101u8]
}

/// A line without the carriage return that may end it.
pub open spec fn strip_cr(l: Seq<u8>) -> Seq<u8> {
    if l.len() > 0 && l.last() == 13 {
        l.drop_last()
    } else {
        l
    }
}

/// Whether a line opens a group other than the primary one, which ends the
/// part of the file that is read.
pub open spec fn ends_group(l: Seq<u8>) -> bool {
    l.len() > 0 && l[0] == 91 && trim_end_spec(l) != group_header()
}

/// The `Exec` arguments that stand for files or URLs: `%f %F %u %U %k`.
pub open spec fn is_placeholder(a: Seq<u8>) -> bool {
    a.len() == 2 && a[0] == 37 && (a[1] == 102 || a[1] == 70 || a[1] == 117 || a[1] == 85 || a[1] == 107)
}

/// Arguments that are not placeholders, in order.
pub open spec fn kept_args(args: Seq<Seq<u8>>) -> Seq<Seq<u8>>
    decreases args.len(),
{
    if args.len() == 0 {
        Seq::empty()
    } else {
        let a = kept_args(args.drop_last());
        if is_placeholder(args.last()) {
            a
        } else {
            a.push(args.last())
        }
    }
}

/// Arguments joined by single spaces.
pub open spec fn join_spaces(args: Seq<Seq<u8>>) -> Seq<u8>
    decreases args.len(),
{
    if args.len() == 0 {
        Seq::empty()
    } else if args.len() == 1 {
        args[0]
    } else {
        join_spaces(args.drop_last()) + seq![32u8] + args.last()
    }
}

/// The command of an `Exec` value, without placeholder arguments.
pub open spec fn exec_command(value: Seq<u8>) -> Seq<u8> {
    join_spaces(kept_args(split_spec(value, 32)))
}

/// What the primary group of a desktop-entry file says.
pub struct ParsedEntry {
    pub name: Option<Vec<u8>>,
    pub icon: Option<Vec<u8>>,
    pub command: Option<Vec<u8>>,
    pub hidden: bool,
}

/// Name, icon, command and the `NoDisplay` flag of a file.
pub type ParsedModel = (Option<Seq<u8>>, Option<Seq<u8>>, Option<Seq<u8>>, bool);

pub open spec fn opt_view(o: Option<Vec<u8>>) -> Option<Seq<u8>> {
    match o {
        Some(v) => Some(v@),
        None => None,
    }
}

impl ParsedEntry {
    pub open spec fn model(&self) -> ParsedModel {
        (opt_view(self.name), opt_view(self.icon), opt_view(self.command), self.hidden)
    }
}

/// The effect of one `key=value` line; whitespace before the `=` and after it
/// is not part of the key or the value. Later lines override earlier ones.
pub open spec fn apply_line(acc: ParsedModel, l: Seq<u8>) -> ParsedModel {
    let eq = find_from(l, seq![61u8], 0);
    if eq < 0 {
        acc
    } else {
        let key = trim_end_spec(l.subrange(0, eq));
        let value = trim_start_spec(l.subrange(eq + 1, l.len() as int));
        if key == key_name() {
            (Some(value), acc.1, acc.2, acc.3)
        } else if key == key_icon() {
            (acc.0, Some(value), acc.2, acc.3)
        } else if key == key_exec() {
            (acc.0, acc.1, Some(exec_command(value)), acc.3)
        } else if key == key_no_display() && trim_end_spec(value) == word_true() {
            (acc.0, acc.1, acc.2, true)
        } else {
            acc
        }
    }
}

/// Lines read from the front until another group starts, or until the entry
/// is marked `NoDisplay=true`.
pub open spec fn parse_lines(lines: Seq<Seq<u8>>, acc: ParsedModel) -> ParsedModel
    decreases lines.len(),
{
    if lines.len() == 0 || acc.3 {
        acc
    } else if ends_group(strip_cr(lines[0])) {
        acc
    } else {
        parse_lines(lines.drop_first(), apply_line(acc, strip_cr(lines[0])))
    }
}

/// What a desktop-entry file says.
pub open spec fn parse_entry_spec(content: Seq<u8>) -> ParsedModel {
    parse_lines(split_spec(content, 10), (None, None, None, false))
}

/// `s` without leading ASCII whitespace.
pub fn trim_start(s: &[u8]) -> (r: Vec<u8>)
    ensures
        r@ == trim_start_spec(s@),
{
    let mut i: usize = 0;
    assert(s@.subrange(0, s@.len() as int) == s@);
    while i < s.len() && (s[i] == 32 || (9 <= s[i] && s[i] <= 13))
        invariant
            i <= s@.len(),
            trim_start_spec(s@) == trim_start_spec(s@.subrange(i as int, s@.len() as int)),
        decreases s@.len() - i,
    {
        assert(s@.subrange(i as int, s@.len() as int).drop_first() == s@.subrange(i + 1, s@.len() as int));
        i = i + 1;
    }
    slice_to_vec(s, i, s.len())
}

/// `s` without trailing ASCII whitespace.
pub fn trim_end(s: &[u8]) -> (r: Vec<u8>)
    ensures
        r@ == trim_end_spec(s@),
{
    let mut i: usize = s.len();
    assert(s@.subrange(0, i as int) == s@);
    while i > 0 && (s[i - 1] == 32 || (9 <= s[i - 1] && s[i - 1] <= 13))
        invariant
            i <= s@.len(),
            trim_end_spec(s@) == trim_end_spec(s@.subrange(0, i as int)),
        decreases i,
    {
        assert(s@.subrange(0, i as int).drop_last() == s@.subrange(0, i - 1));
        i = i - 1;
    }
    slice_to_vec(s, 0, i)
}

fn is_placeholder_arg(a: &[u8]) -> (r: bool)
    ensures
        r == is_placeholder(a@),
{
    a.len() == 2 && a[0] == 37 && (a[1] == 102 || a[1] == 70 || a[1] == 117 || a[1] == 85 || a[1] == 107)
}

/// The command of an `Exec` value, without placeholder arguments.
pub fn exec_without_placeholders(value: &[u8]) -> (r: Vec<u8>)
    ensures
        r@ == exec_command(value@),
{
    let args = split_bytes(value, 32);
    let mut out: Vec<u8> = Vec::new();
    let mut count: usize = 0;
    let mut i: usize = 0;
    while i < args.len()
        invariant
            i <= args@.len(),
            byte_strings(args@) == split_spec(value@, 32),
            count as int == kept_args(byte_strings(args@).subrange(0, i as int)).len(),
            out@ == join_spaces(kept_args(byte_strings(args@).subrange(0, i as int))),
            count <= i,
        decreases args@.len() - i,
    {
        let ghost all = byte_strings(args@);
        assert(all.subrange(0, i + 1).drop_last() == all.subrange(0, i as int));
        assert(all.subrange(0, i + 1).last() == args@[i as int]@);
        let a = &args[i];
        if !is_placeholder_arg(a.as_slice()) {
            let ghost before = kept_args(all.subrange(0, i as int));
            if count > 0 {
                out.push(32);
            }
            let mut j: usize = 0;
            let ghost start = out@;
            while j < a.len()
                invariant
                    j <= a@.len(),
                    out@ == start + a@.subrange(0, j as int),
                decreases a@.len() - j,
            {
                out.push(a[j]);
                assert(a@.subrange(0, j + 1) == a@.subrange(0, j as int).push(a@[j as int]));
                assert(out@ =~= start + a@.subrange(0, j + 1));
                j = j + 1;
            }
            assert(a@.subrange(0, j as int) == a@);
            let ghost after = before.push(a@);
            assert(after.drop_last() == before);
            if count == 0 {
                assert(before.len() == 0);
                assert(out@ =~= join_spaces(after));
            } else {
                assert(out@ =~= join_spaces(after));
            }
            count = count + 1;
        }
        i = i + 1;
    }
    assert(byte_strings(args@).subrange(0, i as int) == byte_strings(args@));
    out
}


/// A line without the carriage return that may end it.
fn line_without_cr(l: &Vec<u8>) -> (r: Vec<u8>)
    ensures
        r@ == strip_cr(l@),
{
    if l.len() > 0 && l[l.len() - 1] == 13 {
        slice_to_vec(l.as_slice(), 0, l.len() - 1)
    } else {
        slice_to_vec(l.as_slice(), 0, l.len())
    }
}

/// Read the primary group of a desktop-entry file.
pub fn parse_desktop_entry(content: &[u8]) -> (r: ParsedEntry)
    ensures
        r.model() == parse_entry_spec(content@),
{
    let header: Vec<u8> = vec![91u8, 68u8, 101u8, 115u8, 107u8, 116u8, 111u8, 112u8, 32u8, 69u8, 110u8, 116u8, 114u8, 121u8, 93u8];
    let k_name: Vec<u8> = vec![78u8, 97u8, 109u8, 101u8];
    let k_icon: Vec<u8> = vec![73u8, 99u8, 111u8, 110u8];
    let k_exec: Vec<u8> = vec![69u8, 120u8, 101u8, 99u8];
    let k_no_display: Vec<u8> = vec![78u8, 111u8, 68u8, 105u8, 115u8, 112u8, 108u8, 97u8, 121u8];
    let w_true: Vec<u8> = vec![116u8, 114u8, 117u8, 101u8];
    let eq_sign: Vec<u8> = vec![61u8];
    assert(header@ == group_header());
    assert(k_name@ == key_name());
    assert(k_icon@ == key_icon());
    assert(k_exec@ == key_exec());
    assert(k_no_display@ == key_no_display());
    assert(w_true@ == word_true());
    assert(eq_sign@ == seq![61u8]);
    let lines = split_bytes(content, 10);
    let mut name: Option<Vec<u8>> = None;
    let mut icon: Option<Vec<u8>> = None;
    let mut command: Option<Vec<u8>> = None;
    let mut hidden = false;
    let mut i: usize = 0;
    assert(byte_strings(lines@).subrange(0, lines@.len() as int) == byte_strings(lines@));
    while i < lines.len() && !hidden
        invariant
            i <= lines@.len(),
            header@ == group_header(),
            k_name@ == key_name(),
            k_icon@ == key_icon(),
            k_exec@ == key_exec(),
            k_no_display@ == key_no_display(),
            w_true@ == word_true(),
            eq_sign@ == seq![61u8],
            byte_strings(lines@) == split_spec(content@, 10),
            parse_entry_spec(content@) == parse_lines(
                byte_strings(lines@).subrange(i as int, lines@.len() as int),
                (opt_view(name), opt_view(icon), opt_view(command), hidden),
            ),
        ensures
            parse_entry_spec(content@) == (opt_view(name), opt_view(icon), opt_view(command), hidden),
        decreases lines@.len() - i,
    {
        let ghost rest = byte_strings(lines@).subrange(i as int, lines@.len() as int);
        assert(rest[0] == lines@[i as int]@);
        assert(rest.drop_first() == byte_strings(lines@).subrange(i + 1, lines@.len() as int));
        let line = line_without_cr(&lines[i]);
        if line.len() > 0 && line[0] == 91 {
            let trimmed = trim_end(line.as_slice());
            if !bytes_eq(trimmed.as_slice(), header.as_slice()) {
                assert(ends_group(strip_cr(rest[0])));
                break;
            }
        }
        let ghost acc = (opt_view(name), opt_view(icon), opt_view(command), hidden);
        match find_bytes(line.as_slice(), eq_sign.as_slice(), 0) {
            None => {},
            Some(eq) => {
                proof {
                    lemma_find_from(line@, eq_sign@, 0);
                }
                let n: usize = line.len();
                assert(eq + 1 <= n);
                let key_part = slice_to_vec(line.as_slice(), 0, eq);
                let value_part = slice_to_vec(line.as_slice(), eq + 1, n);
                let key = trim_end(key_part.as_slice());
                let value = trim_start(value_part.as_slice());
                if bytes_eq(key.as_slice(), k_name.as_slice()) {
                    name = Some(value);
                } else if bytes_eq(key.as_slice(), k_icon.as_slice()) {
                    icon = Some(value);
                } else if bytes_eq(key.as_slice(), k_exec.as_slice()) {
                    command = Some(exec_without_placeholders(value.as_slice()));
                } else if bytes_eq(key.as_slice(), k_no_display.as_slice()) {
                    let v = trim_end(value.as_slice());
                    if bytes_eq(v.as_slice(), w_true.as_slice()) {
                        hidden = true;
                    }
                }
            },
        }
        assert((opt_view(name), opt_view(icon), opt_view(command), hidden) == apply_line(acc, line@));
        i = i + 1;
    }
    ParsedEntry { name, icon, command, hidden }
}

} // verus!
