//! Detector output: the lines each detector records, in the formats the
//! report layer reads (`func@file@line`, `func@file`, `name`, `func@True`).
//!
//! A `TmpWriter` collects the lines; writing them to the detector's `.tmp`
//! file is left to the program that runs the detector.
use vstd::prelude::*;

verus! {

pub open spec fn digit_char(d: int) -> char {
    if d == 0 { '0' }
    else if d == 1 { '1' }
    else if d == 2 { '2' }
    else if d == 3 { '3' }
    else if d == 4 { '4' }
    else if d == 5 { '5' }
    else if d == 6 { '6' }
    else if d == 7 { '7' }
    else if d == 8 { '8' }
    else { '9' }
}

/// The decimal digits of `n`, most significant first, without leading zeros.
pub open spec fn decimal(n: nat) -> Seq<char>
    decreases n,
{
    if n < 10 {
        seq![digit_char(n as int)]
    } else {
        decimal(n / 10).push(digit_char((n % 10) as int))
    }
}

pub open spec fn at_sign() -> Seq<char> {
    seq!['@']
}

/// `func@file@line`
pub open spec fn loc_line(func: Seq<char>, file: Seq<char>, line: nat) -> Seq<char> {
    func + at_sign() + file + at_sign() + decimal(line)
}

/// `func@file`
pub open spec fn func_file_line(func: Seq<char>, file: Seq<char>) -> Seq<char> {
    func + at_sign() + file
}

pub open spec fn bool_text(b: bool) -> Seq<char> {
    if b {
        seq!['T', 'r', 'u', 'e']
    } else {
        seq!['F', 'a', 'l', 's', 'e']
    }
}

/// `func@True` or `func@False`
pub open spec fn bool_line(func: Seq<char>, value: bool) -> Seq<char> {
    func + at_sign() + bool_text(value)
}

fn digit_str(d: u32) -> (r: &'static str)
    requires
        d < 10,
    ensures
        r@ == seq![digit_char(d as int)],
{
    proof {
        reveal_strlit("0");
        reveal_strlit("1");
        reveal_strlit("2");
        reveal_strlit("3");
        reveal_strlit("4");
        reveal_strlit("5");
        reveal_strlit("6");
        reveal_strlit("7");
        reveal_strlit("8");
        reveal_strlit("9");
    }
    match d {
        0 => "0",
        1 => "1",
        2 => "2",
        3 => "3",
        4 => "4",
        5 => "5",
        6 => "6",
        7 => "7",
        8 => "8",
        _ => "9",
    }
}

/// Appends the decimal form of `n` to `s`.
pub fn push_decimal(s: &mut String, n: u32)
    ensures
        final(s)@ == old(s)@ + decimal(n as nat),
    decreases n,
{
    if n >= 10 {
        push_decimal(s, n / 10);
    }
    s.append(digit_str(n % 10));
    assert(decimal(n as nat) == if n < 10 {
        seq![digit_char(n as int)]
    } else {
        decimal((n / 10) as nat).push(digit_char((n % 10) as int))
    });
}

/// The decimal form of `n`.
pub fn to_decimal(n: u32) -> (r: String)
    ensures
        r@ == decimal(n as nat),
{
    let mut s = String::new();
    push_decimal(&mut s, n);
    assert(s@ == Seq::<char>::empty() + decimal(n as nat));
    s
}

/// The text of a detector's output file: each line followed by a newline.
pub open spec fn file_text(lines: Seq<Seq<char>>) -> Seq<char>
    decreases lines.len(),
{
    if lines.len() == 0 {
        Seq::empty()
    } else {
        file_text(lines.drop_last()) + lines.last().push('\n')
    }
}

/// `s` without trailing slashes.
pub open spec fn trim_end_slashes(s: Seq<char>) -> Seq<char>
    decreases s.len(),
{
    if s.len() > 0 && s.last() == '/' {
        trim_end_slashes(s.drop_last())
    } else {
        s
    }
}

/// The path of the output file of detector `name` in directory `dir`:
/// `<dir>/.<name>.tmp`, trailing slashes of `dir` dropped.
pub open spec fn tmp_path(dir: Seq<char>, name: Seq<char>) -> Seq<char> {
    trim_end_slashes(dir) + "/."@ + name + ".tmp"@
}

/// The path of the output file of detector `name` in directory `tmp_dir`.
pub fn tmp_file_path(tmp_dir: &str, name: &str) -> (r: String)
    ensures
        r@ == tmp_path(tmp_dir@, name@),
{
    let cs = crate::text::chars_of(tmp_dir);
    let mut n = cs.len();
    assert(cs@.take(n as int) =~= cs@);
    while n > 0 && cs[n - 1] == '/'
        invariant
            n <= cs@.len(),
            cs@ == tmp_dir@,
            trim_end_slashes(cs@.take(n as int)) == trim_end_slashes(tmp_dir@),
        decreases n,
    {
        assert(cs@.take(n as int).drop_last() =~= cs@.take(n - 1));
        n -= 1;
    }
    assert(trim_end_slashes(cs@.take(n as int)) == cs@.take(n as int));
    let dir = crate::text::string_of(&crate::text::slice_chars(&cs, 0, n));
    assert(cs@.subrange(0, n as int) =~= cs@.take(n as int));
    let mut r = dir;
    r.append("/.");
    r.append(name);
    r.append(".tmp");
    r
}

/// Collects the lines a detector records.
pub struct TmpWriter {
    /// The detector's name; its output goes to `.<name>.tmp`.
    pub detector: String,
    pub lines: Vec<String>,
}

impl TmpWriter {
    /// The recorded lines, in order.
    pub open spec fn lines_view(&self) -> Seq<Seq<char>> {
        Seq::new(self.lines@.len(), |i: int| self.lines@[i]@)
    }

    /// A writer for `.<detector_name>.tmp`, with no line yet.
    pub fn new(detector_name: &str) -> (r: TmpWriter)
        ensures
            r.detector@ == detector_name@,
            r.lines_view() == Seq::<Seq<char>>::empty(),
    {
        let r = TmpWriter { detector: String::from_str(detector_name), lines: Vec::new() };
        assert(r.lines_view() =~= Seq::<Seq<char>>::empty());
        r
    }

    /// The text to append to the output file: each recorded line followed by
    /// a newline.
    pub fn contents(&self) -> (r: String)
        ensures
            r@ == file_text(self.lines_view()),
    {
        let mut r = String::new();
        let n = self.lines.len();
        proof {
            reveal_strlit("\n");
        }
        assert(self.lines_view().take(0) =~= Seq::<Seq<char>>::empty());
        for k in 0..n
            invariant
                n == self.lines@.len(),
                r@ == file_text(self.lines_view().take(k as int)),
                "\n"@ == seq!['\n'],
        {
            r.append(self.lines[k].as_str());
            r.append("\n");
            assert(self.lines_view().take(k + 1).drop_last() =~= self.lines_view().take(k as int));
            assert(self.lines_view().take(k + 1).last() == self.lines@[k as int]@);
            assert(r@ =~= file_text(self.lines_view().take(k + 1)));
        }
        assert(self.lines_view().take(n as int) =~= self.lines_view());
        r
    }

    fn write_raw(&mut self, content: String)
        ensures
            final(self).lines_view() == old(self).lines_view().push(content@),
            final(self).detector == old(self).detector,
    {
        self.lines.push(content);
        assert(self.lines_view() =~= old(self).lines_view().push(content@));
    }

    /// Records `func_name@filename@line`, the standard finding format.
    pub fn write(&mut self, func_name: &str, filename: &str, line: u32)
        ensures
            final(self).lines_view() == old(self).lines_view().push(
                loc_line(func_name@, filename@, line as nat),
            ),
            final(self).detector == old(self).detector,
    {
        let mut s = String::from_str(func_name);
        s.append("@");
        s.append(filename);
        s.append("@");
        push_decimal(&mut s, line);
        proof {
            reveal_strlit("@");
        }
        assert(s@ == loc_line(func_name@, filename@, line as nat));
        self.write_raw(s);
    }

    /// Records `name`, the single-field format.
    pub fn write_name(&mut self, name: &str)
        ensures
            final(self).lines_view() == old(self).lines_view().push(name@),
            final(self).detector == old(self).detector,
    {
        self.write_raw(String::from_str(name));
    }

    /// Records `func_name@filename`.
    pub fn write_func_file(&mut self, func_name: &str, filename: &str)
        ensures
            final(self).lines_view() == old(self).lines_view().push(
                func_file_line(func_name@, filename@),
            ),
            final(self).detector == old(self).detector,
    {
        let mut s = String::from_str(func_name);
        s.append("@");
        s.append(filename);
        proof {
            reveal_strlit("@");
        }
        assert(s@ == func_file_line(func_name@, filename@));
        self.write_raw(s);
    }

    /// Records `func_name@True` or `func_name@False`.
    pub fn write_bool(&mut self, func_name: &str, value: bool)
        ensures
            final(self).lines_view() == old(self).lines_view().push(bool_line(func_name@, value)),
            final(self).detector == old(self).detector,
    {
        let mut s = String::from_str(func_name);
        s.append("@");
        if value {
            s.append("True");
        } else {
            s.append("False");
        }
        proof {
            reveal_strlit("@");
            reveal_strlit("True");
            reveal_strlit("False");
        }
        assert(s@ == bool_line(func_name@, value));
        self.write_raw(s);
    }
}

} // verus!
