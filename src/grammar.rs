//! The mathematical model of a translation: what each production of the
//! grammar reads, which labels it allocates and which instructions it writes.
use vstd::prelude::*;
use crate::text::{line, label_name};
use crate::error::{TranslateError, Expected};

verus! {

/// One instruction of the output.
pub enum Op {
    /// An ordinary instruction line.
    Line(Seq<char>),
    /// The definition of a label, written without a line break.
    Def(nat),
    /// A jump instruction (its mnemonic) to a label.
    Jump(Seq<char>, nat),
}

/// The text of one instruction.
pub open spec fn render_op(op: Op) -> Seq<char> {
    match op {
        Op::Line(t) => line(t),
        Op::Def(n) => seq!['\t'] + label_name(n) + seq![':'],
        Op::Jump(m, n) => line(m + seq![' '] + label_name(n)),
    }
}

/// The text of a sequence of instructions.
pub open spec fn render(ops: Seq<Op>) -> Seq<char>
    decreases ops.len(),
{
    if ops.len() == 0 {
        seq![]
    } else {
        render(ops.drop_last()) + render_op(ops.last())
    }
}

pub broadcast proof fn lemma_render_push(ops: Seq<Op>, op: Op)
    ensures
        #[trigger] render(ops.push(op)) == render(ops) + render_op(op),
{
    assert(ops.push(op).drop_last() =~= ops);
}

pub broadcast proof fn lemma_render_concat(a: Seq<Op>, b: Seq<Op>)
    ensures
        #[trigger] render(a + b) == render(a) + render(b),
    decreases b.len(),
{
    if b.len() == 0 {
        assert(a + b =~= a);
        assert(render(a) + render(b) =~= render(a));
    } else {
        lemma_render_concat(a, b.drop_last());
        assert((a + b).drop_last() =~= a + b.drop_last());
        assert(render(a + b) =~= render(a) + render(b));
    }
}

// ---- texts of the instructions ----

pub open spec fn condition_text() -> Seq<char> {
    seq!['<', 'c', 'o', 'n', 'd', 'i', 't', 'i', 'o', 'n', '>']
}

pub open spec fn expression_text() -> Seq<char> {
    seq!['<', 'e', 'x', 'p', 'r', 'e', 's', 's', 'i', 'o', 'n', '>']
}

pub open spec fn end_text() -> Seq<char> {
    seq!['E', 'N', 'D']
}

pub open spec fn push_ebx_text() -> Seq<char> {
    seq!['P', 'U', 'S', 'H', ' ', 'E', 'B', 'X']
}

pub open spec fn pop_ebx_text() -> Seq<char> {
    seq!['P', 'O', 'P', ' ', 'E', 'B', 'X']
}

pub open spec fn mov_ebx_eax_text() -> Seq<char> {
    seq!['M', 'O', 'V', ' ', 'E', 'B', 'X', ',', ' ', 'E', 'A', 'X']
}

pub open spec fn sub_eax_ebx_text() -> Seq<char> {
    seq!['S', 'U', 'B', ' ', 'E', 'A', 'X', ',', ' ', 'E', 'B', 'X']
}

pub open spec fn mov_ecx_eax_text() -> Seq<char> {
    seq!['M', 'O', 'V', ' ', 'E', 'C', 'X', ',', ' ', 'E', 'A', 'X']
}

/// `<somehow load X>`
pub open spec fn load_text(x: char) -> Seq<char> {
    seq!['<', 's', 'o', 'm', 'e', 'h', 'o', 'w', ' ', 'l', 'o', 'a', 'd', ' ', x, '>']
}

/// `<somehow store EAX to X>`
pub open spec fn store_text(x: char) -> Seq<char> {
    seq![
        '<', 's', 'o', 'm', 'e', 'h', 'o', 'w', ' ', 's', 't', 'o', 'r', 'e', ' ', 'E', 'A', 'X',
        ' ', 't', 'o', ' ', x, '>',
    ]
}

/// `<somehow SUB X, 1>`
pub open spec fn decrement_text(x: char) -> Seq<char> {
    seq!['<', 's', 'o', 'm', 'e', 'h', 'o', 'w', ' ', 'S', 'U', 'B', ' ', x, ',', ' ', '1', '>']
}

pub open spec fn jz() -> Seq<char> {
    seq!['J', 'Z']
}

pub open spec fn jmp() -> Seq<char> {
    seq!['J', 'M', 'P']
}

pub open spec fn jo() -> Seq<char> {
    seq!['J', 'O']
}

pub open spec fn jnz() -> Seq<char> {
    seq!['J', 'N', 'Z']
}

pub open spec fn loop_mnemonic() -> Seq<char> {
    seq!['L', 'O', 'O', 'P']
}

// ---- characters ----

pub open spec fn is_letter(c: u8) -> bool {
    (65 <= c <= 90) || (97 <= c <= 122)
}

/// The upper-case form of an ASCII letter; other bytes are kept.
pub open spec fn upper(c: u8) -> u8 {
    if 97 <= c <= 122 {
        (c - 32) as u8
    } else {
        c
    }
}

pub open spec fn is_terminator(c: u8) -> bool {
    c == 'e' as u8 || c == 'l' as u8 || c == 'u' as u8
}

// ---- outcomes ----

/// Where a production leaves the translation: its result, the lookahead
/// position and label counter afterwards, and the instructions it wrote (on
/// failure, those written before the failure).
pub struct Outcome {
    pub result: Result<(), TranslateError>,
    pub pos: int,
    pub labels: nat,
    pub ops: Seq<Op>,
}

pub open spec fn done(pos: int, labels: nat, ops: Seq<Op>) -> Outcome {
    Outcome { result: Ok(()), pos, labels, ops }
}

pub open spec fn failed(e: TranslateError, pos: int, labels: nat, ops: Seq<Op>) -> Outcome {
    Outcome { result: Err(e), pos, labels, ops }
}

/// `o` with `ops` written before it.
pub open spec fn after(ops: Seq<Op>, o: Outcome) -> Outcome {
    Outcome { ops: ops + o.ops, ..o }
}

/// Matching `c` at `pos`: the lookahead must be `c`, and another character
/// must follow it.
pub open spec fn match_at(s: Seq<u8>, pos: int, c: u8) -> Result<(), TranslateError> {
    if s[pos] != c {
        Err(TranslateError::UnexpectedCharacter(Expected::Char(c)))
    } else if pos + 1 < s.len() {
        Ok(())
    } else {
        Err(TranslateError::InputExhausted)
    }
}

/// Reading a name at `pos`: a letter, followed by another character; the
/// name is its upper-case form.
pub open spec fn name_at(s: Seq<u8>, pos: int) -> Result<u8, TranslateError> {
    if !is_letter(s[pos]) {
        Err(TranslateError::InvalidName)
    } else if pos + 1 < s.len() {
        Ok(upper(s[pos]))
    } else {
        Err(TranslateError::InputExhausted)
    }
}

// ---- the grammar ----

/// `program ::= block "e"`; the terminator is checked, not consumed.
pub open spec fn spec_program(s: Seq<u8>, pos: int, n: nat) -> Outcome {
    let b = spec_block(s, pos, n);
    if b.result is Err {
        b
    } else if s[b.pos] != 'e' as u8 {
        failed(TranslateError::UnexpectedCharacter(Expected::End), b.pos, b.labels, b.ops)
    } else {
        done(b.pos, b.labels, b.ops.push(Op::Line(end_text())))
    }
}

/// `block ::= { statement }`, ended by `e`, `l` or `u`, which stays unread.
pub open spec fn spec_block(s: Seq<u8>, pos: int, n: nat) -> Outcome
    decreases s.len() - pos, 2int,
{
    if !(0 <= pos < s.len()) {
        failed(TranslateError::InputExhausted, pos, n, seq![])
    } else if is_terminator(s[pos]) {
        done(pos, n, seq![])
    } else {
        let st = spec_statement(s, pos, n);
        if st.result is Err || !(pos < st.pos < s.len()) {
            st
        } else {
            after(st.ops, spec_block(s, st.pos, st.labels))
        }
    }
}

/// One statement, chosen by the lookahead.
pub open spec fn spec_statement(s: Seq<u8>, pos: int, n: nat) -> Outcome
    decreases s.len() - pos, 1int,
{
    if !(0 <= pos < s.len()) {
        failed(TranslateError::InputExhausted, pos, n, seq![])
    } else if s[pos] == 'i' as u8 {
        spec_if(s, pos, n)
    } else if s[pos] == 'w' as u8 {
        spec_while(s, pos, n)
    } else if s[pos] == 'p' as u8 {
        spec_loop(s, pos, n)
    } else if s[pos] == 'r' as u8 {
        spec_repeat(s, pos, n)
    } else if s[pos] == 'f' as u8 {
        spec_for(s, pos, n)
    } else if s[pos] == 'd' as u8 {
        spec_do(s, pos, n)
    } else {
        spec_other(s, pos, n)
    }
}

/// `if ::= i condition block [ l block ] e`
pub open spec fn spec_if(s: Seq<u8>, pos: int, n: nat) -> Outcome
    decreases s.len() - pos, 0int,
{
    if !(0 <= pos < s.len()) {
        failed(TranslateError::InputExhausted, pos, n, seq![])
    } else if let Err(e) = match_at(s, pos, 'i' as u8) {
        failed(e, pos, n, seq![])
    } else {
        let head = seq![Op::Line(condition_text())].push(Op::Jump(jz(), n));
        let b = spec_block(s, pos + 1, n + 1);
        if b.result is Err {
            after(head, b)
        } else if s[b.pos] == 'l' as u8 {
            if !(pos < b.pos < s.len()) {
                after(head, b)
            } else if let Err(e) = match_at(s, b.pos, 'l' as u8) {
                failed(e, b.pos, b.labels, head + b.ops)
            } else {
                let mid = (head + b.ops).push(Op::Jump(jmp(), b.labels)).push(Op::Def(n));
                let c = spec_block(s, b.pos + 1, b.labels + 1);
                if c.result is Err {
                    after(mid, c)
                } else if let Err(e) = match_at(s, c.pos, 'e' as u8) {
                    failed(e, c.pos, c.labels, mid + c.ops)
                } else {
                    done(c.pos + 1, c.labels, (mid + c.ops).push(Op::Def(b.labels)))
                }
            }
        } else if let Err(e) = match_at(s, b.pos, 'e' as u8) {
            failed(e, b.pos, b.labels, head + b.ops)
        } else {
            done(b.pos + 1, b.labels, (head + b.ops).push(Op::Def(n)))
        }
    }
}

/// `while ::= w condition block e`
pub open spec fn spec_while(s: Seq<u8>, pos: int, n: nat) -> Outcome
    decreases s.len() - pos, 0int,
{
    if !(0 <= pos < s.len()) {
        failed(TranslateError::InputExhausted, pos, n, seq![])
    } else if let Err(e) = match_at(s, pos, 'w' as u8) {
        failed(e, pos, n, seq![])
    } else {
        let head = seq![Op::Def(n)].push(Op::Line(condition_text())).push(Op::Jump(jz(), n + 1));
        let b = spec_block(s, pos + 1, n + 2);
        if b.result is Err {
            after(head, b)
        } else if let Err(e) = match_at(s, b.pos, 'e' as u8) {
            failed(e, b.pos, b.labels, head + b.ops)
        } else {
            done(
                b.pos + 1,
                b.labels,
                (head + b.ops).push(Op::Jump(jmp(), n)).push(Op::Def(n + 1)),
            )
        }
    }
}

/// `loop ::= p block e`
pub open spec fn spec_loop(s: Seq<u8>, pos: int, n: nat) -> Outcome
    decreases s.len() - pos, 0int,
{
    if !(0 <= pos < s.len()) {
        failed(TranslateError::InputExhausted, pos, n, seq![])
    } else if let Err(e) = match_at(s, pos, 'p' as u8) {
        failed(e, pos, n, seq![])
    } else {
        let head = seq![Op::Def(n)];
        let b = spec_block(s, pos + 1, n + 1);
        if b.result is Err {
            after(head, b)
        } else if let Err(e) = match_at(s, b.pos, 'e' as u8) {
            failed(e, b.pos, b.labels, head + b.ops)
        } else {
            done(b.pos + 1, b.labels, (head + b.ops).push(Op::Jump(jmp(), n)))
        }
    }
}

/// `repeat ::= r block u condition`
pub open spec fn spec_repeat(s: Seq<u8>, pos: int, n: nat) -> Outcome
    decreases s.len() - pos, 0int,
{
    if !(0 <= pos < s.len()) {
        failed(TranslateError::InputExhausted, pos, n, seq![])
    } else if let Err(e) = match_at(s, pos, 'r' as u8) {
        failed(e, pos, n, seq![])
    } else {
        let head = seq![Op::Def(n)];
        let b = spec_block(s, pos + 1, n + 1);
        if b.result is Err {
            after(head, b)
        } else if let Err(e) = match_at(s, b.pos, 'u' as u8) {
            failed(e, b.pos, b.labels, head + b.ops)
        } else {
            done(
                b.pos + 1,
                b.labels,
                (head + b.ops).push(Op::Line(condition_text())).push(Op::Jump(jz(), n)),
            )
        }
    }
}

/// `for ::= f name = expression expression block e`, kept between a push and
/// a pop of the scratch register.
pub open spec fn spec_for(s: Seq<u8>, pos: int, n: nat) -> Outcome
    decreases s.len() - pos, 0int,
{
    let push = seq![Op::Line(push_ebx_text())];
    if !(0 <= pos < s.len()) {
        failed(TranslateError::InputExhausted, pos, n, seq![])
    } else if let Err(e) = match_at(s, pos, 'f' as u8) {
        failed(e, pos, n, push)
    } else if let Err(e) = name_at(s, pos + 1) {
        failed(e, pos + 1, n, push)
    } else if let Err(e) = match_at(s, pos + 2, '=' as u8) {
        failed(e, pos + 2, n, push)
    } else {
        let name = upper(s[pos + 1]) as char;
        let head = push
            .push(Op::Line(load_text(name)))
            .push(Op::Line(expression_text()))
            .push(Op::Line(mov_ebx_eax_text()))
            .push(Op::Line(expression_text()))
            .push(Op::Line(sub_eax_ebx_text()))
            .push(Op::Jump(jo(), n + 1))
            .push(Op::Line(store_text(name)))
            .push(Op::Def(n));
        let b = spec_block(s, pos + 3, n + 2);
        if b.result is Err {
            after(head, b)
        } else if let Err(e) = match_at(s, b.pos, 'e' as u8) {
            failed(e, b.pos, b.labels, head + b.ops)
        } else {
            done(
                b.pos + 1,
                b.labels,
                (head + b.ops).push(Op::Line(decrement_text(name))).push(
                    Op::Jump(jnz(), n),
                ).push(Op::Def(n + 1)).push(Op::Line(pop_ebx_text())),
            )
        }
    }
}

/// `do ::= d expression block e`; the loop instruction comes before the
/// terminator is matched.
pub open spec fn spec_do(s: Seq<u8>, pos: int, n: nat) -> Outcome
    decreases s.len() - pos, 0int,
{
    if !(0 <= pos < s.len()) {
        failed(TranslateError::InputExhausted, pos, n, seq![])
    } else if let Err(e) = match_at(s, pos, 'd' as u8) {
        failed(e, pos, n, seq![])
    } else {
        let head = seq![Op::Line(expression_text())].push(Op::Line(mov_ecx_eax_text())).push(Op::Def(n));
        let b = spec_block(s, pos + 1, n + 1);
        if b.result is Err {
            after(head, b)
        } else {
            let ops = (head + b.ops).push(Op::Jump(loop_mnemonic(), n));
            if let Err(e) = match_at(s, b.pos, 'e' as u8) {
                failed(e, b.pos, b.labels, ops)
            } else {
                done(b.pos + 1, b.labels, ops)
            }
        }
    }
}

/// `other ::= name`: the name is written as an instruction line.
pub open spec fn spec_other(s: Seq<u8>, pos: int, n: nat) -> Outcome {
    match name_at(s, pos) {
        Err(e) => failed(e, pos, n, seq![]),
        Ok(c) => done(pos + 1, n, seq![Op::Line(seq![c as char])]),
    }
}

} // verus!
