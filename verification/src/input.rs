//! The line lists that some detectors read from the output of others:
//! struct names, callback names and call patterns, one per line.
use vstd::prelude::*;
use crate::text::{chars_of, string_of};
use crate::output::{file_text, func_file_line};

verus! {

/// The characters of each string.
pub open spec fn strings_view(v: Seq<String>) -> Seq<Seq<char>> {
    v.map_values(|s: String| s@)
}

/// `line` without one trailing carriage return.
pub open spec fn strip_cr(line: Seq<char>) -> Seq<char> {
    if line.len() > 0 && line.last() == '\r' {
        line.drop_last()
    } else {
        line
    }
}

/// Reading `s` from the start: the lines ended by a newline so far, and the
/// characters of the line not yet ended.
pub open spec fn lines_acc(s: Seq<char>) -> (Seq<Seq<char>>, Seq<char>)
    decreases s.len(),
{
    if s.len() == 0 {
        (Seq::empty(), Seq::empty())
    } else {
        let (done, cur) = lines_acc(s.drop_last());
        if s.last() == '\n' {
            (done.push(strip_cr(cur)), Seq::empty())
        } else {
            (done, cur.push(s.last()))
        }
    }
}

/// The lines of `s` as `str::lines` gives them: split at `\n`, a `\r` just
/// before a `\n` dropped, and no empty last line after a final newline.
pub open spec fn str_lines(s: Seq<char>) -> Seq<Seq<char>> {
    let (done, cur) = lines_acc(s);
    if cur.len() == 0 {
        done
    } else {
        done.push(cur)
    }
}

fn strip_cr_chars(line: &Vec<char>) -> (r: Vec<char>)
    ensures
        r@ == strip_cr(line@),
{
    let mut r = line.clone();
    let n = r.len();
    if n > 0 && r[n - 1] == '\r' {
        r.pop();
    }
    assert(r@ =~= strip_cr(line@));
    r
}

/// The lines of `content`, as `str::lines` splits them.
pub fn lines_of(content: &str) -> (r: Vec<String>)
    ensures
        strings_view(r@) == str_lines(content@),
{
    let cs = chars_of(content);
    let mut done: Vec<String> = Vec::new();
    let mut cur: Vec<char> = Vec::new();
    let n = cs.len();
    assert(strings_view(done@) =~= Seq::<Seq<char>>::empty());
    assert(cs@.take(0) =~= Seq::<char>::empty());
    for k in 0..n
        invariant
            n == cs@.len(),
            cs@ == content@,
            (strings_view(done@), cur@) == lines_acc(cs@.take(k as int)),
    {
        assert(cs@.take(k + 1).drop_last() =~= cs@.take(k as int));
        assert(cs@.take(k + 1).last() == cs@[k as int]);
        let c = cs[k];
        if c == '\n' {
            let line = strip_cr_chars(&cur);
            let s = string_of(&line);
            let ghost before = done@;
            done.push(s);
            assert(strings_view(done@) =~= strings_view(before).push(s@));
            cur = Vec::new();
            assert(cur@ =~= Seq::<char>::empty());
        } else {
            cur.push(c);
        }
    }
    assert(cs@.take(n as int) =~= cs@);
    if cur.len() > 0 {
        let s = string_of(&cur);
        let ghost before = done@;
        done.push(s);
        assert(strings_view(done@) =~= strings_view(before).push(s@));
    }
    done
}

/// A struct-name line: kept when it is not empty and not a `#` comment.
pub open spec fn struct_name_line(l: Seq<char>) -> Option<Seq<char>> {
    if l.len() > 0 && l[0] != '#' {
        Some(l)
    } else {
        None
    }
}

/// The part of `l` before its first `@` (all of `l` when it has none).
pub open spec fn before_at(l: Seq<char>) -> Seq<char> {
    if exists|k: int| 0 <= k < l.len() && l[k] == '@' {
        l.take(choose|k: int| 0 <= k < l.len() && l[k] == '@' && forall|j: int| 0 <= j < k ==> l[j] != '@')
    } else {
        l
    }
}

/// A callback line `name@...`: its name, when the line is not empty.
pub open spec fn callback_name_line(l: Seq<char>) -> Option<Seq<char>> {
    if l.len() > 0 {
        Some(before_at(l))
    } else {
        None
    }
}

/// A pattern line: kept when it is not empty.
pub open spec fn pattern_line(l: Seq<char>) -> Option<Seq<char>> {
    if l.len() > 0 {
        Some(l)
    } else {
        None
    }
}

fn before_at_chars(l: &Vec<char>) -> (r: Vec<char>)
    ensures
        r@ == before_at(l@),
{
    let n = l.len();
    let mut r: Vec<char> = Vec::new();
    let mut k: usize = 0;
    while k < n
        invariant
            n == l@.len(),
            k <= n,
            r@ == l@.take(k as int),
            forall|j: int| 0 <= j < k ==> l@[j] != '@',
        decreases n - k,
    {
        if l[k] == '@' {
            let ghost c = choose|c: int| 0 <= c < l@.len() && l@[c] == '@' && forall|j: int| 0 <= j < c ==> l@[j] != '@';
            assert(0 <= c < l@.len() && l@[c] == '@' && forall|j: int| 0 <= j < c ==> l@[j] != '@');
            assert(c == k) by {
                if c < k {
                    assert(l@[c] != '@');
                } else if c > k {
                    assert(l@[k as int] != '@');
                }
            }
            return r;
        }
        r.push(l[k]);
        assert(l@.take(k + 1) =~= l@.take(k as int).push(l@[k as int]));
        k += 1;
    }
    assert(l@.take(n as int) =~= l@);
    r
}

/// The names in a list of struct names: one per line, skipping empty lines and
/// `#` comments.
pub fn struct_names(content: &str) -> (r: Vec<String>)
    ensures
        strings_view(r@) == str_lines(content@).filter_map(|l: Seq<char>| struct_name_line(l)),
{
    let lines = lines_of(content);
    let ghost ls = str_lines(content@);
    let ghost f = |l: Seq<char>| struct_name_line(l);
    let mut r: Vec<String> = Vec::new();
    let n = lines.len();
    for k in 0..n
        invariant
            n == lines@.len(),
            ls == strings_view(lines@),
            f == (|l: Seq<char>| struct_name_line(l)),
            strings_view(r@) == ls.take(k as int).filter_map(f),
    {
        proof {
            ls.lemma_filter_map_take_succ(f, k as int);
        }
        let line = &lines[k];
        assert(line@ == ls[k as int]);
        let cs = chars_of(line.as_str());
        if cs.len() > 0 && cs[0] != '#' {
            let ghost before = r@;
            r.push(line.clone());
            assert(strings_view(r@) =~= strings_view(before).push(line@));
        }
        assert(strings_view(r@) =~= ls.take(k + 1).filter_map(f));
    }
    assert(ls.take(n as int) =~= ls);
    r
}

/// The function names in a list of callbacks: one line per callback, the name
/// before the first `@`, skipping empty lines.
pub fn callback_names(content: &str) -> (r: Vec<String>)
    ensures
        strings_view(r@) == str_lines(content@).filter_map(|l: Seq<char>| callback_name_line(l)),
{
    let lines = lines_of(content);
    let ghost ls = str_lines(content@);
    let ghost f = |l: Seq<char>| callback_name_line(l);
    let mut r: Vec<String> = Vec::new();
    let n = lines.len();
    for k in 0..n
        invariant
            n == lines@.len(),
            ls == strings_view(lines@),
            f == (|l: Seq<char>| callback_name_line(l)),
            strings_view(r@) == ls.take(k as int).filter_map(f),
    {
        proof {
            ls.lemma_filter_map_take_succ(f, k as int);
        }
        let line = &lines[k];
        assert(line@ == ls[k as int]);
        let cs = chars_of(line.as_str());
        if cs.len() > 0 {
            let name = string_of(&before_at_chars(&cs));
            let ghost before = r@;
            r.push(name);
            assert(strings_view(r@) =~= strings_view(before).push(name@));
        }
        assert(strings_view(r@) =~= ls.take(k + 1).filter_map(f));
    }
    assert(ls.take(n as int) =~= ls);
    r
}

/// The patterns in a pattern list: one per line, skipping empty lines.
pub fn pattern_lines(content: &str) -> (r: Vec<String>)
    ensures
        strings_view(r@) == str_lines(content@).filter_map(|l: Seq<char>| pattern_line(l)),
{
    let lines = lines_of(content);
    let ghost ls = str_lines(content@);
    let ghost f = |l: Seq<char>| pattern_line(l);
    let mut r: Vec<String> = Vec::new();
    let n = lines.len();
    for k in 0..n
        invariant
            n == lines@.len(),
            ls == strings_view(lines@),
            f == (|l: Seq<char>| pattern_line(l)),
            strings_view(r@) == ls.take(k as int).filter_map(f),
    {
        proof {
            ls.lemma_filter_map_take_succ(f, k as int);
        }
        let line = &lines[k];
        assert(line@ == ls[k as int]);
        if !line.as_str().is_empty() {
            let ghost before = r@;
            r.push(line.clone());
            assert(strings_view(r@) =~= strings_view(before).push(line@));
        }
        assert(strings_view(r@) =~= ls.take(k + 1).filter_map(f));
    }
    assert(ls.take(n as int) =~= ls);
    r
}

/// `l` holds no newline.
pub open spec fn no_newline(l: Seq<char>) -> bool {
    forall|k: int| 0 <= k < l.len() ==> l[k] != '\n'
}

/// `l` can stand as a line of an output file: no newline in it, and no
/// carriage return at its end.
pub open spec fn plain_line(l: Seq<char>) -> bool {
    no_newline(l) && !(l.len() > 0 && l.last() == '\r')
}

proof fn lemma_acc_append(s: Seq<char>, w: Seq<char>)
    requires
        no_newline(w),
    ensures
        lines_acc(s + w) == (lines_acc(s).0, lines_acc(s).1 + w),
    decreases w.len(),
{
    if w.len() == 0 {
        assert(s + w =~= s);
        assert(lines_acc(s).1 + w =~= lines_acc(s).1);
    } else {
        let w1 = w.drop_last();
        assert(no_newline(w1));
        lemma_acc_append(s, w1);
        assert((s + w).drop_last() =~= s + w1);
        assert((s + w).last() == w.last());
        assert(w[w.len() - 1] != '\n');
        assert((lines_acc(s).1 + w1).push(w.last()) =~= lines_acc(s).1 + w);
    }
}

proof fn lemma_acc_file_text(lines: Seq<Seq<char>>)
    requires
        forall|i: int| 0 <= i < lines.len() ==> plain_line(#[trigger] lines[i]),
    ensures
        lines_acc(file_text(lines)) == (lines, Seq::<char>::empty()),
    decreases lines.len(),
{
    if lines.len() > 0 {
        let rest = lines.drop_last();
        let l = lines.last();
        assert(plain_line(lines[lines.len() - 1]));
        assert forall|i: int| 0 <= i < rest.len() implies plain_line(#[trigger] rest[i]) by {
            assert(plain_line(lines[i]));
        }
        lemma_acc_file_text(rest);
        let t = file_text(rest);
        lemma_acc_append(t, l);
        assert(file_text(lines) == t + l.push('\n'));
        assert((t + l.push('\n')).drop_last() =~= t + l);
        assert(Seq::<char>::empty() + l =~= l);
        assert(strip_cr(l) == l);
        assert(rest.push(l) =~= lines);
    }
}

/// Reading the lines of an output file gives back the lines written to it,
/// when none holds a newline or ends in a carriage return.
pub proof fn lemma_lines_round_trip(lines: Seq<Seq<char>>)
    requires
        forall|i: int| 0 <= i < lines.len() ==> plain_line(#[trigger] lines[i]),
    ensures
        str_lines(file_text(lines)) == lines,
{
    lemma_acc_file_text(lines);
}

/// Reading a callback line `name@file` gives back `name`, when the name holds
/// no `@`.
pub proof fn lemma_callback_name_round_trip(name: Seq<char>, file: Seq<char>)
    requires
        forall|k: int| 0 <= k < name.len() ==> name[k] != '@',
    ensures
        callback_name_line(func_file_line(name, file)) == Some(name),
{
    let l = func_file_line(name, file);
    let n = name.len() as int;
    assert(l[n] == '@');
    let c = choose|k: int| 0 <= k < l.len() && l[k] == '@' && forall|j: int| 0 <= j < k ==> l[j] != '@';
    assert(0 <= n < l.len() && l[n] == '@' && forall|j: int| 0 <= j < n ==> l[j] != '@') by {
        assert forall|j: int| 0 <= j < n implies l[j] != '@' by {
            assert(l[j] == name[j]);
        }
    }
    assert(c == n) by {
        if c < n {
            assert(l[c] == name[c]);
        } else if c > n {
            assert(l[n] != '@');
        }
    }
    assert(l.take(n) =~= name);
}

} // verus!
