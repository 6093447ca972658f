//! struct_member: every read or write of a listed struct's members in user
//! code, found through `getelementptr` on the struct type or a cast of a
//! pointer to it.
use vstd::prelude::*;
use crate::ir::{FunctionRef, InstructionRef, Module, Opcode, all_instructions, fn_insts, value_type_string};
use crate::input::strings_view;
use crate::patterns::is_lib_func;
use crate::callgraph::{has_user_loc, user_loc};
use crate::text::{chars_of, string_of, slice_chars, trim, trim_chars, trim_char, trim_char_chars};
use super::common::{concat_upto, lemma_concat_upto_step, module_lines, is_lib_name, first_index, lemma_first_index, lemma_first_index_none};

verus! {

/// How a member access is used: loaded, stored to, or otherwise.
#[derive(Clone, Copy, Debug, PartialEq, Eq, Structural)]
pub enum Mode {
    Read,
    Write,
    Unknown,
}

/// One access to a listed struct, at a source location.
pub struct StructAccess {
    pub name: String,
    pub mode: Mode,
    pub filename: String,
    pub line: u32,
}

impl StructAccess {
    pub open spec fn view_tuple(&self) -> (Seq<char>, Mode, Seq<char>, u32) {
        (self.name@, self.mode, self.filename@, self.line)
    }
}

/// The accesses as tuples of plain values.
pub open spec fn accesses_view(v: Seq<StructAccess>) -> Seq<(Seq<char>, Mode, Seq<char>, u32)> {
    v.map_values(|a: StructAccess| a.view_tuple())
}

/// The word for a mode in reports.
pub open spec fn mode_text(mode: Mode) -> Seq<char> {
    match mode {
        Mode::Read => seq!['r', 'e', 'a', 'd'],
        Mode::Write => seq!['w', 'r', 'i', 't', 'e'],
        Mode::Unknown => seq!['u', 'n', 'k', 'n', 'o', 'w', 'n'],
    }
}

/// The word for a mode in reports.
pub fn mode_str(mode: Mode) -> (r: &'static str)
    ensures
        r@ == mode_text(mode),
{
    proof {
        reveal_strlit("read");
        reveal_strlit("write");
        reveal_strlit("unknown");
    }
    match mode {
        Mode::Read => "read",
        Mode::Write => "write",
        Mode::Unknown => "unknown",
    }
}

/// The mode of `v` by its first user: a load reads, a store writes.
pub open spec fn mode_of(m: &Module, v: int) -> Mode {
    let us = m.values[v].users@;
    if us.len() == 0 {
        Mode::Unknown
    } else if m.has_opcode(us[0] as int, Opcode::Load) {
        Mode::Read
    } else if m.has_opcode(us[0] as int, Opcode::Store) {
        Mode::Write
    } else {
        Mode::Unknown
    }
}

/// How the value of `inst` is used, judged by its first user.
pub fn get_mode(m: &Module, inst: &InstructionRef) -> (r: Mode)
    requires
        m.wf(),
        inst.0 < m.values@.len(),
    ensures
        r == mode_of(m, inst.0 as int),
{
    assert(m.value_wf(inst.0 as int));
    let us = &m.values[inst.0].users;
    if us.len() == 0 {
        return Mode::Unknown;
    }
    let u = us[0];
    match m.inst_data(u) {
        Some(i) => match i.opcode {
            Opcode::Load => Mode::Read,
            Opcode::Store => Mode::Write,
            _ => Mode::Unknown,
        },
        None => Mode::Unknown,
    }
}

pub open spec fn is_cast_opcode(op: Opcode) -> bool {
    match op {
        Opcode::Trunc | Opcode::ZExt | Opcode::SExt | Opcode::FPToUI | Opcode::FPToSI
        | Opcode::UIToFP | Opcode::SIToFP | Opcode::FPTrunc | Opcode::FPExt | Opcode::PtrToInt
        | Opcode::IntToPtr | Opcode::BitCast | Opcode::AddrSpaceCast => true,
        _ => false,
    }
}

/// True if `inst` is a cast instruction.
pub fn is_cast_inst(m: &Module, inst: &InstructionRef) -> (r: bool)
    requires
        inst.0 < m.values@.len(),
    ensures
        r == (m.inst(inst.0 as int) matches Some(i) && is_cast_opcode(i.opcode)),
{
    match m.inst_data(inst.0) {
        Some(i) => match i.opcode {
            Opcode::Trunc | Opcode::ZExt | Opcode::SExt | Opcode::FPToUI | Opcode::FPToSI
            | Opcode::UIToFP | Opcode::SIToFP | Opcode::FPTrunc | Opcode::FPExt | Opcode::PtrToInt
            | Opcode::IntToPtr | Opcode::BitCast | Opcode::AddrSpaceCast => true,
            _ => false,
        },
        None => false,
    }
}

/// The position of the first `=` in `s`.
pub open spec fn first_eq_sign(s: Seq<char>) -> Option<int> {
    first_index(s.len() as int, |k: int| s[k] == '=')
}

/// The struct named by a printed struct type `%"name" = type { ... }`: the
/// text from the second character up to the one before the first `=`,
/// trimmed of white space and then of quotes.
pub open spec fn gep_struct_name(meta: Seq<char>) -> Option<Seq<char>> {
    match first_eq_sign(meta) {
        Some(e) => if e >= 2 {
            Some(trim_char(trim(meta.subrange(1, e - 1)), '"'))
        } else {
            None
        },
        None => None,
    }
}

/// The struct that a printed pointer type `%name*` points to: `name`, when it
/// is not itself a pointer.
pub open spec fn cast_struct_name(meta: Seq<char>) -> Option<Seq<char>> {
    if meta.len() >= 2 && meta[0] == '%' && meta.last() == '*' {
        let inner = meta.subrange(1, meta.len() - 1);
        if inner.len() > 0 && inner.last() == '*' {
            None
        } else {
            Some(inner)
        }
    } else {
        None
    }
}

/// `o` when what it holds is one of `structs`.
pub open spec fn listed(o: Option<Seq<char>>, structs: Seq<Seq<char>>) -> Option<Seq<char>> {
    match o {
        Some(n) => if structs.contains(n) {
            Some(n)
        } else {
            None
        },
        None => None,
    }
}

/// The listed struct that instruction `v` accesses: a `getelementptr` whose
/// source type is the struct, or else a cast of a pointer to the struct.
pub open spec fn struct_use(m: &Module, v: int, structs: Seq<Seq<char>>) -> Option<Seq<char>> {
    let gep = if m.has_opcode(v, Opcode::GetElementPtr) {
        listed(gep_struct_name(m.inst(v).unwrap().gep_source_type@), structs)
    } else {
        None
    };
    if gep is Some {
        gep
    } else {
        match m.inst(v) {
            Some(i) => if is_cast_opcode(i.opcode) && i.operands@.len() > 0 {
                listed(cast_struct_name(m.type_text(i.operands@[0] as int)), structs)
            } else {
                None
            },
            None => None,
        }
    }
}

/// Whether `name` is one of `structs`.
fn is_listed(structs: &Vec<String>, name: &String) -> (r: bool)
    ensures
        r == strings_view(structs@).contains(name@),
{
    let n = structs.len();
    for k in 0..n
        invariant
            n == structs@.len(),
            forall|j: int| 0 <= j < k ==> structs@[j]@ != name@,
    {
        if structs[k] == *name {
            assert(strings_view(structs@)[k as int] == name@);
            return true;
        }
    }
    assert forall|j: int| 0 <= j < strings_view(structs@).len() implies strings_view(structs@)[j] != name@ by {
        assert(structs@[j]@ != name@);
    }
    false
}

fn first_eq_sign_exec(s: &Vec<char>) -> (r: Option<usize>)
    ensures
        match r {
            Some(e) => first_eq_sign(s@) == Some(e as int) && e < s@.len(),
            None => first_eq_sign(s@) is None,
        },
{
    let ghost p = |k: int| s@[k] == '=';
    let n = s.len();
    for k in 0..n
        invariant
            n == s@.len(),
            p == (|k: int| s@[k] == '='),
            forall|j: int| 0 <= j < k ==> !#[trigger] p(j),
    {
        if s[k] == '=' {
            proof {
                lemma_first_index(n as int, p, k as int);
            }
            return Some(k);
        }
    }
    proof {
        lemma_first_index_none(n as int, p);
    }
    None
}

fn gep_struct_name_exec(meta: &String) -> (r: Option<String>)
    ensures
        match r {
            Some(n) => gep_struct_name(meta@) == Some(n@),
            None => gep_struct_name(meta@) is None,
        },
{
    let cs = chars_of(meta.as_str());
    match first_eq_sign_exec(&cs) {
        Some(e) => {
            if e >= 2 {
                let raw = trim_chars(&slice_chars(&cs, 1, e - 1));
                Some(string_of(&trim_char_chars(&raw, '"')))
            } else {
                None
            }
        },
        None => None,
    }
}

fn cast_struct_name_exec(meta: &String) -> (r: Option<String>)
    ensures
        match r {
            Some(n) => cast_struct_name(meta@) == Some(n@),
            None => cast_struct_name(meta@) is None,
        },
{
    let cs = chars_of(meta.as_str());
    let n = cs.len();
    if n >= 2 && cs[0] == '%' && cs[n - 1] == '*' {
        let inner = slice_chars(&cs, 1, n - 1);
        let k = inner.len();
        if k > 0 && inner[k - 1] == '*' {
            None
        } else {
            Some(string_of(&inner))
        }
    } else {
        None
    }
}

/// The listed struct that `inst` accesses, with the mode of the access.
pub fn using_struct(m: &Module, inst: &InstructionRef, structs: &Vec<String>) -> (r: Option<(String, Mode)>)
    requires
        m.wf(),
        inst.0 < m.values@.len(),
    ensures
        match r {
            Some((n, mode)) => struct_use(m, inst.0 as int, strings_view(structs@)) == Some(n@)
                && mode == mode_of(m, inst.0 as int),
            None => struct_use(m, inst.0 as int, strings_view(structs@)) is None,
        },
{
    assert(m.value_wf(inst.0 as int));
    let i = match m.inst_data(inst.0) {
        Some(i) => i,
        None => {
            return None;
        },
    };
    let is_gep = match i.opcode {
        Opcode::GetElementPtr => true,
        _ => false,
    };
    if is_gep {
        match gep_struct_name_exec(&i.gep_source_type) {
            Some(name) => {
                if is_listed(structs, &name) {
                    let mode = get_mode(m, inst);
                    return Some((name, mode));
                }
            },
            None => {},
        }
    }
    if is_cast_inst(m, inst) {
        if i.operands.len() == 0 {
            return None;
        }
        let src = value_type_string(m, i.operands[0]);
        match cast_struct_name_exec(&src) {
            Some(name) => {
                if is_listed(structs, &name) {
                    let mode = get_mode(m, inst);
                    return Some((name, mode));
                }
                None
            },
            None => None,
        }
    } else {
        None
    }
}

/// The access recorded for instruction `v`: at its user-code location.
pub open spec fn access_at(m: &Module, v: int, structs: Seq<Seq<char>>) -> Option<(Seq<char>, Mode, Seq<char>, u32)> {
    if user_loc(m, v) {
        match struct_use(m, v, structs) {
            Some(n) => Some((n, mode_of(m, v), m.debug_loc(v).unwrap().filename@, m.debug_loc(v).unwrap().line)),
            None => None,
        }
    } else {
        None
    }
}

/// The accesses inside function `f`, in instruction order.
pub open spec fn struct_member_fn(m: &Module, f: int, structs: Seq<Seq<char>>) -> Seq<(Seq<char>, Mode, Seq<char>, u32)> {
    if is_lib_name(m, f) {
        Seq::empty()
    } else {
        fn_insts(m, f).filter_map(|v: usize| access_at(m, v as int, structs))
    }
}

fn struct_member_in(m: &Module, f: usize, structs: &Vec<String>, out: &mut Vec<StructAccess>)
    requires
        m.wf(),
        f < m.functions@.len(),
    ensures
        accesses_view(final(out)@) == accesses_view(old(out)@) + struct_member_fn(m, f as int, strings_view(structs@)),
{
    let ghost sv = strings_view(structs@);
    let func = FunctionRef(f);
    if is_lib_func(func.name(m)) {
        assert(accesses_view(old(out)@) + Seq::<(Seq<char>, Mode, Seq<char>, u32)>::empty() =~= accesses_view(old(out)@));
        return;
    }
    let insts = all_instructions(m, &func);
    let ghost is = fn_insts(m, f as int);
    let ghost g = |v: usize| access_at(m, v as int, sv);
    let n = insts.len();
    assert(is.take(0) =~= Seq::<usize>::empty());
    assert(accesses_view(out@) =~= accesses_view(old(out)@) + is.take(0).filter_map(g));
    for k in 0..n
        invariant
            m.wf(),
            n == insts@.len(),
            n == is.len(),
            is == fn_insts(m, f as int),
            sv == strings_view(structs@),
            g == (|v: usize| access_at(m, v as int, sv)),
            forall|j: int| 0 <= j < n ==> (#[trigger] insts@[j]).0 == is[j],
            forall|j: int| 0 <= j < n ==> (#[trigger] insts@[j]).0 < m.values@.len(),
            accesses_view(out@) == accesses_view(old(out)@) + is.take(k as int).filter_map(g),
    {
        proof {
            is.lemma_filter_map_take_succ(g, k as int);
        }
        let inst = &insts[k];
        assert(inst.0 == is[k as int]);
        let ghost before = out@;
        if has_user_loc(m, inst) {
            match using_struct(m, inst, structs) {
                Some((name, mode)) => {
                    let loc = inst.debug_loc(m).unwrap();
                    out.push(StructAccess { name, mode, filename: loc.filename, line: loc.line });
                    assert(accesses_view(out@) =~= accesses_view(before).push(out@.last().view_tuple()));
                },
                None => {},
            }
        }
        assert(accesses_view(out@) =~= accesses_view(old(out)@) + is.take(k + 1).filter_map(g));
    }
    assert(is.take(n as int) =~= is);
}

/// Every access, in user code, to a member of one of `structs`: function by
/// function, in instruction order.
pub fn struct_member(m: &Module, structs: &Vec<String>) -> (r: Vec<StructAccess>)
    requires
        m.wf(),
    ensures
        accesses_view(r@) == module_lines(m, |f: int| struct_member_fn(m, f, strings_view(structs@))),
{
    let ghost per = |f: int| struct_member_fn(m, f, strings_view(structs@));
    let mut out: Vec<StructAccess> = Vec::new();
    let n = m.functions.len();
    assert(accesses_view(out@) =~= concat_upto(0, per));
    for k in 0..n
        invariant
            m.wf(),
            n == m.functions@.len(),
            per == (|f: int| struct_member_fn(m, f, strings_view(structs@))),
            accesses_view(out@) == concat_upto(k as int, per),
    {
        struct_member_in(m, k, structs, &mut out);
        proof {
            lemma_concat_upto_step(Seq::<(Seq<char>, Mode, Seq<char>, u32)>::empty(), k as int, per);
            assert(Seq::<(Seq<char>, Mode, Seq<char>, u32)>::empty() + concat_upto(k as int, per) =~= concat_upto(k as int, per));
            assert(Seq::<(Seq<char>, Mode, Seq<char>, u32)>::empty() + concat_upto(k + 1, per) =~= concat_upto(k + 1, per));
        }
    }
    out
}

} // verus!
