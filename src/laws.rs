//! Laws of the translation, proved over the grammar's model.
use vstd::prelude::*;
use crate::error::{TranslateError, Expected};
use crate::grammar::{
    Op, Outcome, is_letter, is_terminator, match_at, name_at, after, upper, condition_text, expression_text,
    push_ebx_text, pop_ebx_text, mov_ebx_eax_text, sub_eax_ebx_text, mov_ecx_eax_text, load_text,
    store_text, decrement_text, end_text, jz, jmp, jo, jnz, loop_mnemonic, spec_program, spec_block, spec_statement, spec_if, spec_while, spec_loop,
    spec_repeat, spec_for, spec_do, spec_other,
};

verus! {

/// How many times the instructions `ops` define label `k`.
pub open spec fn defs(ops: Seq<Op>, k: nat) -> nat
    decreases ops.len(),
{
    if ops.len() == 0 {
        0
    } else {
        defs(ops.drop_last(), k) + if ops.last() == Op::Def(k) {
            1nat
        } else {
            0nat
        }
    }
}

/// How many jumps among `ops` target label `k`.
pub open spec fn refs(ops: Seq<Op>, k: nat) -> nat
    decreases ops.len(),
{
    if ops.len() == 0 {
        0
    } else {
        refs(ops.drop_last(), k) + if ops.last() is Jump && ops.last()->Jump_1 == k {
            1nat
        } else {
            0nat
        }
    }
}

pub broadcast proof fn lemma_defs_push(ops: Seq<Op>, op: Op, k: nat)
    ensures
        #[trigger] defs(ops.push(op), k) == defs(ops, k) + if op == Op::Def(k) {
            1nat
        } else {
            0nat
        },
{
    assert(ops.push(op).drop_last() =~= ops);
}

pub broadcast proof fn lemma_refs_push(ops: Seq<Op>, op: Op, k: nat)
    ensures
        #[trigger] refs(ops.push(op), k) == refs(ops, k) + if op is Jump && op->Jump_1 == k {
            1nat
        } else {
            0nat
        },
{
    assert(ops.push(op).drop_last() =~= ops);
}

pub broadcast proof fn lemma_defs_concat(a: Seq<Op>, b: Seq<Op>, k: nat)
    ensures
        #[trigger] defs(a + b, k) == defs(a, k) + defs(b, k),
    decreases b.len(),
{
    if b.len() == 0 {
        assert(a + b =~= a);
    } else {
        lemma_defs_concat(a, b.drop_last(), k);
        assert((a + b).drop_last() =~= a + b.drop_last());
    }
}

pub broadcast proof fn lemma_refs_concat(a: Seq<Op>, b: Seq<Op>, k: nat)
    ensures
        #[trigger] refs(a + b, k) == refs(a, k) + refs(b, k),
    decreases b.len(),
{
    if b.len() == 0 {
        assert(a + b =~= a);
    } else {
        lemma_refs_concat(a, b.drop_last(), k);
        assert((a + b).drop_last() =~= a + b.drop_last());
    }
}

pub broadcast group group_counts {
    lemma_defs_push,
    lemma_refs_push,
    lemma_defs_concat,
    lemma_refs_concat,
}

/// What every production keeps: the counter only grows; the code mentions
/// only labels allocated during the production; on success each of them is
/// defined once and targeted once, and the lookahead has moved forward
/// (strictly, for a statement); the lookahead stays within the input; and a
/// statement that fails at its first lookahead, other than for want of input,
/// has written nothing.
pub open spec fn well_behaved(o: Outcome, s: Seq<u8>, pos: int, n: nat, k: nat, strict: bool) -> bool {
    &&& n <= o.labels
    &&& !(n <= k < o.labels) ==> defs(o.ops, k) == 0 && refs(o.ops, k) == 0
    &&& o.result is Ok ==> {
        &&& n <= k < o.labels ==> defs(o.ops, k) == 1 && refs(o.ops, k) == 1
        &&& 0 <= pos <= o.pos < s.len()
        &&& strict ==> pos < o.pos
    }
    &&& 0 <= pos < s.len() ==> pos <= o.pos < s.len()
    &&& strict && o.pos == pos && o.result is Err && o.result != Err::<(), TranslateError>(
        TranslateError::InputExhausted,
    ) ==> o.ops.len() == 0
}

proof fn lemma_block(s: Seq<u8>, pos: int, n: nat, k: nat)
    ensures
        well_behaved(spec_block(s, pos, n), s, pos, n, k, false),
    decreases s.len() - pos, 2int,
{
    broadcast use group_counts;

    if 0 <= pos < s.len() {
        let st = spec_statement(s, pos, n);
        lemma_statement(s, pos, n, k);
        if st.result is Ok && pos < st.pos < s.len() {
            lemma_block(s, st.pos, st.labels, k);
        }
    }
}

proof fn lemma_statement(s: Seq<u8>, pos: int, n: nat, k: nat)
    ensures
        well_behaved(spec_statement(s, pos, n), s, pos, n, k, true),
    decreases s.len() - pos, 1int,
{
    if 0 <= pos < s.len() {
        if s[pos] == 'i' as u8 {
            lemma_if(s, pos, n, k);
        } else if s[pos] == 'w' as u8 {
            lemma_while(s, pos, n, k);
        } else if s[pos] == 'p' as u8 {
            lemma_loop(s, pos, n, k);
        } else if s[pos] == 'r' as u8 {
            lemma_repeat(s, pos, n, k);
        } else if s[pos] == 'f' as u8 {
            lemma_for(s, pos, n, k);
        } else if s[pos] == 'd' as u8 {
            lemma_do(s, pos, n, k);
        } else {
            lemma_other(s, pos, n, k);
        }
    }
}

proof fn lemma_if(s: Seq<u8>, pos: int, n: nat, k: nat)
    requires
        0 <= pos < s.len(),
        s[pos] == 'i' as u8,
    ensures
        well_behaved(spec_if(s, pos, n), s, pos, n, k, true),
    decreases s.len() - pos, 0int,
{
    broadcast use group_counts;

    if 0 <= pos < s.len() && pos + 1 < s.len() {
        let b = spec_block(s, pos + 1, n + 1);
        lemma_block(s, pos + 1, n + 1, k);
        if b.result is Ok && pos < b.pos < s.len() {
            lemma_block(s, b.pos + 1, b.labels + 1, k);
        }
    }
}

proof fn lemma_while(s: Seq<u8>, pos: int, n: nat, k: nat)
    requires
        0 <= pos < s.len(),
        s[pos] == 'w' as u8,
    ensures
        well_behaved(spec_while(s, pos, n), s, pos, n, k, true),
    decreases s.len() - pos, 0int,
{
    broadcast use group_counts;

    if 0 <= pos < s.len() && pos + 1 < s.len() {
        lemma_block(s, pos + 1, n + 2, k);
    }
}

proof fn lemma_loop(s: Seq<u8>, pos: int, n: nat, k: nat)
    requires
        0 <= pos < s.len(),
        s[pos] == 'p' as u8,
    ensures
        well_behaved(spec_loop(s, pos, n), s, pos, n, k, true),
    decreases s.len() - pos, 0int,
{
    broadcast use group_counts;

    if 0 <= pos < s.len() && pos + 1 < s.len() {
        lemma_block(s, pos + 1, n + 1, k);
    }
}

proof fn lemma_repeat(s: Seq<u8>, pos: int, n: nat, k: nat)
    requires
        0 <= pos < s.len(),
        s[pos] == 'r' as u8,
    ensures
        well_behaved(spec_repeat(s, pos, n), s, pos, n, k, true),
    decreases s.len() - pos, 0int,
{
    broadcast use group_counts;

    if 0 <= pos < s.len() && pos + 1 < s.len() {
        lemma_block(s, pos + 1, n + 1, k);
    }
}

proof fn lemma_for(s: Seq<u8>, pos: int, n: nat, k: nat)
    requires
        0 <= pos < s.len(),
        s[pos] == 'f' as u8,
    ensures
        well_behaved(spec_for(s, pos, n), s, pos, n, k, true),
    decreases s.len() - pos, 0int,
{
    broadcast use group_counts;

    if 0 <= pos < s.len() && pos + 3 < s.len() {
        lemma_block(s, pos + 3, n + 2, k);
    }
}

proof fn lemma_do(s: Seq<u8>, pos: int, n: nat, k: nat)
    requires
        0 <= pos < s.len(),
        s[pos] == 'd' as u8,
    ensures
        well_behaved(spec_do(s, pos, n), s, pos, n, k, true),
    decreases s.len() - pos, 0int,
{
    broadcast use group_counts;

    if 0 <= pos < s.len() && pos + 1 < s.len() {
        lemma_block(s, pos + 1, n + 1, k);
    }
}

proof fn lemma_other(s: Seq<u8>, pos: int, n: nat, k: nat)
    requires
        0 <= pos < s.len(),
    ensures
        well_behaved(spec_other(s, pos, n), s, pos, n, k, true),
{
    broadcast use group_counts;

}

/// `a` is a prefix of `b`.
pub open spec fn is_prefix(a: Seq<Op>, b: Seq<Op>) -> bool {
    a.len() <= b.len() && forall|i: int| 0 <= i < a.len() ==> #[trigger] a[i] == b[i]
}

/// `s` and `t` hold the same characters before position `m`.
pub open spec fn agree(s: Seq<u8>, t: Seq<u8>, m: int) -> bool {
    0 <= m <= s.len() && m <= t.len() && forall|i: int| 0 <= i < m ==> #[trigger] s[i] == t[i]
}

/// `c` is what a run that failed with `e` was looking for.
pub open spec fn wanted(e: TranslateError, c: u8) -> bool {
    match e {
        TranslateError::UnexpectedCharacter(Expected::Char(x)) => c == x,
        TranslateError::UnexpectedCharacter(Expected::End) => c == 'e' as u8,
        TranslateError::InvalidName => is_letter(c),
        TranslateError::InputExhausted => true,
    }
}

/// `t` is an input on which a run with outcome `o` on `s` would have gone the
/// same way up to where it stopped: `t` is at least as long as `s` and agrees
/// with it before the lookahead where the run stopped (on all of `s` if the
/// run ran out of input); at that lookahead `t` has the same character, or,
/// after a failure, what was wanted there, or, after a block, any terminator.
pub open spec fn compatible(o: Outcome, s: Seq<u8>, t: Seq<u8>, block: bool) -> bool {
    &&& t.len() >= s.len()
    &&& if o.result == Err::<(), TranslateError>(TranslateError::InputExhausted) {
        agree(s, t, s.len() as int)
    } else {
        &&& agree(s, t, o.pos)
        &&& o.pos < s.len()
        &&& t[o.pos] == s[o.pos] || match o.result {
            Ok(_) => !block || is_terminator(t[o.pos]),
            Err(e) => wanted(e, t[o.pos]),
        }
    }
}

/// On an input compatible with where a statement stopped, the code it writes
/// on `s` is a prefix of the code it writes on `t`, and a success on `s` is
/// the same success on `t`.
pub open spec fn stable(o: Outcome, p: Outcome, s: Seq<u8>, t: Seq<u8>) -> bool {
    compatible(o, s, t, false) ==> is_prefix(o.ops, p.ops) && (o.result is Ok ==> p == o)
}

proof fn stream_block(s: Seq<u8>, t: Seq<u8>, pos: int, n: nat)
    ensures
        compatible(spec_block(s, pos, n), s, t, true) ==> is_prefix(
            spec_block(s, pos, n).ops,
            spec_block(t, pos, n).ops,
        ) && (spec_block(s, pos, n).result is Ok ==> spec_block(t, pos, n) == spec_block(s, pos, n)),
    decreases s.len() - pos, 2int,
{
    let o = spec_block(s, pos, n);
    let p = spec_block(t, pos, n);
    lemma_block(s, pos, n, 0);
    if 0 <= pos < s.len() && compatible(o, s, t, true) {
        if !is_terminator(s[pos]) {
            let st = spec_statement(s, pos, n);
            let pt = spec_statement(t, pos, n);
            lemma_statement(s, pos, n, 0);
            stream_statement(s, t, pos, n);
            if st.result is Ok && pos < st.pos < s.len() {
                let r = spec_block(s, st.pos, st.labels);
                lemma_block(s, st.pos, st.labels, 0);
                stream_block(s, t, st.pos, st.labels);
                assert(agree(s, t, st.pos));
                assert(pt == st);
                assert(t[pos] == s[pos]);
                let rt = spec_block(t, st.pos, st.labels);
                assert(p == after(st.ops, rt));
                assert(is_prefix(st.ops + r.ops, st.ops + rt.ops));
            } else if o.ops.len() > 0 {
                assert(t[pos] == s[pos]);
                if pt.result is Ok && pos < pt.pos < t.len() {
                    let rt = spec_block(t, pt.pos, pt.labels);
                    assert(is_prefix(pt.ops, pt.ops + rt.ops));
                }
            }
        }
    }
}

proof fn stream_statement(s: Seq<u8>, t: Seq<u8>, pos: int, n: nat)
    ensures
        stable(spec_statement(s, pos, n), spec_statement(t, pos, n), s, t),
    decreases s.len() - pos, 1int,
{
    let o = spec_statement(s, pos, n);
    if 0 <= pos < s.len() {
        lemma_statement(s, pos, n, 0);
        if compatible(o, s, t, false) && (o.pos > pos || o.result == Err::<(), TranslateError>(
            TranslateError::InputExhausted,
        )) {
            assert(t[pos] == s[pos]);
        }
        if s[pos] == 'i' as u8 {
            stream_if(s, t, pos, n);
        } else if s[pos] == 'w' as u8 {
            stream_while(s, t, pos, n);
        } else if s[pos] == 'p' as u8 {
            stream_loop(s, t, pos, n);
        } else if s[pos] == 'r' as u8 {
            stream_repeat(s, t, pos, n);
        } else if s[pos] == 'f' as u8 {
            stream_for(s, t, pos, n);
        } else if s[pos] == 'd' as u8 {
            stream_do(s, t, pos, n);
        } else {
            stream_other(s, t, pos, n);
        }
    }
}

proof fn stream_other(s: Seq<u8>, t: Seq<u8>, pos: int, n: nat)
    requires
        0 <= pos < s.len(),
    ensures
        stable(spec_other(s, pos, n), spec_other(t, pos, n), s, t),
{
    let o = spec_other(s, pos, n);
    lemma_other(s, pos, n, 0);
    if compatible(o, s, t, false) && o.result is Ok {
        assert(t[pos] == s[pos]);
    }
}

proof fn stream_if(s: Seq<u8>, t: Seq<u8>, pos: int, n: nat)
    requires
        0 <= pos < s.len(),
        s[pos] == 'i' as u8,
    ensures
        stable(spec_if(s, pos, n), spec_if(t, pos, n), s, t),
    decreases s.len() - pos, 0int,
{
    let o = spec_if(s, pos, n);
    let p = spec_if(t, pos, n);
    lemma_if(s, pos, n, 0);
    if pos + 1 < s.len() && compatible(o, s, t, false) {
        let head = seq![Op::Line(condition_text())].push(Op::Jump(jz(), n));
        let b = spec_block(s, pos + 1, n + 1);
        let bt = spec_block(t, pos + 1, n + 1);
        lemma_block(s, pos + 1, n + 1, 0);
        stream_block(s, t, pos + 1, n + 1);
        assert(t[pos] == s[pos]);
        // whatever `t` does next, its code starts with the head and its block
        assert(is_prefix(head + bt.ops, p.ops)) by {
            if bt.result is Ok && t[bt.pos] == 'l' as u8 && pos < bt.pos < t.len()
                && match_at(t, bt.pos, 'l' as u8) is Ok {
                let mid = (head + bt.ops).push(Op::Jump(jmp(), bt.labels)).push(Op::Def(n));
                let ct = spec_block(t, bt.pos + 1, bt.labels + 1);
                assert(is_prefix(head + bt.ops, mid));
                assert(is_prefix(mid, mid + ct.ops));
                assert(is_prefix(mid + ct.ops, (mid + ct.ops).push(Op::Def(bt.labels))));
            }
        }
        if b.result is Err {
            assert(is_prefix(head + b.ops, head + bt.ops));
        } else if s[b.pos] == 'l' as u8 && pos < b.pos < s.len() {
            if match_at(s, b.pos, 'l' as u8) is Err {
                assert(bt == b);
            } else {
                let c = spec_block(s, b.pos + 1, b.labels + 1);
                let ct = spec_block(t, b.pos + 1, b.labels + 1);
                lemma_block(s, b.pos + 1, b.labels + 1, 0);
                stream_block(s, t, b.pos + 1, b.labels + 1);
                assert(agree(s, t, b.pos + 1));
                assert(bt == b);
                assert(t[b.pos] == s[b.pos]);
                let mid = (head + b.ops).push(Op::Jump(jmp(), b.labels)).push(Op::Def(n));
                if c.result is Err {
                    assert(is_prefix(mid + c.ops, mid + ct.ops));
                } else {
                    assert(ct == c);
                    let x = mid + c.ops;
                    assert(is_prefix(x, x.push(Op::Def(b.labels))));
                }
            }
        } else {
            assert(bt == b);
            let x = head + b.ops;
            assert(is_prefix(x, x.push(Op::Def(n))));
        }
    }
}

proof fn stream_while(s: Seq<u8>, t: Seq<u8>, pos: int, n: nat)
    requires
        0 <= pos < s.len(),
        s[pos] == 'w' as u8,
    ensures
        stable(spec_while(s, pos, n), spec_while(t, pos, n), s, t),
    decreases s.len() - pos, 0int,
{
    let o = spec_while(s, pos, n);
    let p = spec_while(t, pos, n);
    lemma_while(s, pos, n, 0);
    if pos + 1 < s.len() && compatible(o, s, t, false) {
        let head = seq![Op::Def(n)].push(Op::Line(condition_text())).push(Op::Jump(jz(), n + 1));
        let b = spec_block(s, pos + 1, n + 2);
        let bt = spec_block(t, pos + 1, n + 2);
        lemma_block(s, pos + 1, n + 2, 0);
        stream_block(s, t, pos + 1, n + 2);
        assert(t[pos] == s[pos]);
        let x = head + bt.ops;
        assert(is_prefix(x, p.ops)) by {
            if bt.result is Ok {
                assert(is_prefix(x, x.push(Op::Jump(jmp(), n)).push(Op::Def(n + 1))));
            }
        }
        if b.result is Err {
            assert(is_prefix(head + b.ops, x));
        } else {
            assert(bt == b);
        }
    }
}

proof fn stream_loop(s: Seq<u8>, t: Seq<u8>, pos: int, n: nat)
    requires
        0 <= pos < s.len(),
        s[pos] == 'p' as u8,
    ensures
        stable(spec_loop(s, pos, n), spec_loop(t, pos, n), s, t),
    decreases s.len() - pos, 0int,
{
    let o = spec_loop(s, pos, n);
    let p = spec_loop(t, pos, n);
    lemma_loop(s, pos, n, 0);
    if pos + 1 < s.len() && compatible(o, s, t, false) {
        let head = seq![Op::Def(n)];
        let b = spec_block(s, pos + 1, n + 1);
        let bt = spec_block(t, pos + 1, n + 1);
        lemma_block(s, pos + 1, n + 1, 0);
        stream_block(s, t, pos + 1, n + 1);
        assert(t[pos] == s[pos]);
        let x = head + bt.ops;
        assert(is_prefix(x, p.ops)) by {
            if bt.result is Ok {
                assert(is_prefix(x, x.push(Op::Jump(jmp(), n))));
            }
        }
        if b.result is Err {
            assert(is_prefix(head + b.ops, x));
        } else {
            assert(bt == b);
        }
    }
}

proof fn stream_repeat(s: Seq<u8>, t: Seq<u8>, pos: int, n: nat)
    requires
        0 <= pos < s.len(),
        s[pos] == 'r' as u8,
    ensures
        stable(spec_repeat(s, pos, n), spec_repeat(t, pos, n), s, t),
    decreases s.len() - pos, 0int,
{
    let o = spec_repeat(s, pos, n);
    let p = spec_repeat(t, pos, n);
    lemma_repeat(s, pos, n, 0);
    if pos + 1 < s.len() && compatible(o, s, t, false) {
        let head = seq![Op::Def(n)];
        let b = spec_block(s, pos + 1, n + 1);
        let bt = spec_block(t, pos + 1, n + 1);
        lemma_block(s, pos + 1, n + 1, 0);
        stream_block(s, t, pos + 1, n + 1);
        assert(t[pos] == s[pos]);
        let x = head + bt.ops;
        assert(is_prefix(x, p.ops)) by {
            if bt.result is Ok {
                assert(is_prefix(x, x.push(Op::Line(condition_text())).push(Op::Jump(jz(), n))));
            }
        }
        if b.result is Err {
            assert(is_prefix(head + b.ops, x));
        } else {
            assert(bt == b);
        }
    }
}

proof fn stream_do(s: Seq<u8>, t: Seq<u8>, pos: int, n: nat)
    requires
        0 <= pos < s.len(),
        s[pos] == 'd' as u8,
    ensures
        stable(spec_do(s, pos, n), spec_do(t, pos, n), s, t),
    decreases s.len() - pos, 0int,
{
    let o = spec_do(s, pos, n);
    let p = spec_do(t, pos, n);
    lemma_do(s, pos, n, 0);
    if pos + 1 < s.len() && compatible(o, s, t, false) {
        let head = seq![Op::Line(expression_text())].push(Op::Line(mov_ecx_eax_text())).push(Op::Def(n));
        let b = spec_block(s, pos + 1, n + 1);
        let bt = spec_block(t, pos + 1, n + 1);
        lemma_block(s, pos + 1, n + 1, 0);
        stream_block(s, t, pos + 1, n + 1);
        assert(t[pos] == s[pos]);
        let x = head + bt.ops;
        assert(is_prefix(x, p.ops)) by {
            if bt.result is Ok {
                assert(is_prefix(x, x.push(Op::Jump(loop_mnemonic(), n))));
            }
        }
        if b.result is Err {
            assert(is_prefix(head + b.ops, x));
        } else {
            assert(bt == b);
        }
    }
}

proof fn stream_for(s: Seq<u8>, t: Seq<u8>, pos: int, n: nat)
    requires
        0 <= pos < s.len(),
        s[pos] == 'f' as u8,
    ensures
        stable(spec_for(s, pos, n), spec_for(t, pos, n), s, t),
    decreases s.len() - pos, 0int,
{
    let o = spec_for(s, pos, n);
    let p = spec_for(t, pos, n);
    lemma_for(s, pos, n, 0);
    let push = seq![Op::Line(push_ebx_text())];
    if compatible(o, s, t, false) {
        assert(t[pos] == s[pos]);
        assert(is_prefix(push, p.ops));
    }
    if pos + 3 < s.len() && compatible(o, s, t, false) && name_at(s, pos + 1) is Ok && match_at(s, pos + 2, '=' as u8) is Ok {
        let name = upper(s[pos + 1]) as char;
        let head = seq![Op::Line(push_ebx_text())]
            .push(Op::Line(load_text(name)))
            .push(Op::Line(expression_text()))
            .push(Op::Line(mov_ebx_eax_text()))
            .push(Op::Line(expression_text()))
            .push(Op::Line(sub_eax_ebx_text()))
            .push(Op::Jump(jo(), n + 1))
            .push(Op::Line(store_text(name)))
            .push(Op::Def(n));
        let b = spec_block(s, pos + 3, n + 2);
        let bt = spec_block(t, pos + 3, n + 2);
        lemma_block(s, pos + 3, n + 2, 0);
        stream_block(s, t, pos + 3, n + 2);
        assert(t[pos] == s[pos]);
        assert(t[pos + 1] == s[pos + 1]);
        assert(t[pos + 2] == s[pos + 2]);
        let x = head + bt.ops;
        assert(is_prefix(x, p.ops)) by {
            if bt.result is Ok {
                assert(is_prefix(x, x.push(Op::Line(decrement_text(name))).push(Op::Jump(jnz(), n)).push(Op::Def(n + 1)).push(Op::Line(pop_ebx_text()))));
            }
        }
        if b.result is Err {
            assert(is_prefix(head + b.ops, x));
        } else {
            assert(bt == b);
        }
    }
}

/// In the code of a program that translates without error, from any lookahead
/// position `pos` and label counter `n`, every label that was allocated (from
/// `n` up to the counter's final value) is defined exactly once and is the
/// target of exactly one jump, and no other label appears.
pub proof fn law_labels_defined_once(s: Seq<u8>, pos: int, n: nat)
    requires
        spec_program(s, pos, n).result is Ok,
    ensures
        n <= spec_program(s, pos, n).labels,
        forall|k: nat|
            n <= k < spec_program(s, pos, n).labels ==> #[trigger] defs(spec_program(s, pos, n).ops, k)
                == 1 && refs(spec_program(s, pos, n).ops, k) == 1,
        forall|k: nat|
            !(n <= k < spec_program(s, pos, n).labels) ==> #[trigger] defs(
                spec_program(s, pos, n).ops,
                k,
            ) == 0 && refs(spec_program(s, pos, n).ops, k) == 0,
{
    broadcast use group_counts;

    let o = spec_program(s, pos, n);
    lemma_block(s, pos, n, 0);
    assert forall|k: nat| n <= k < o.labels implies #[trigger] defs(o.ops, k) == 1 && refs(o.ops, k) == 1 by {
        lemma_block(s, pos, n, k);
    }
    assert forall|k: nat| !(n <= k < o.labels) implies #[trigger] defs(o.ops, k) == 0 && refs(o.ops, k) == 0 by {
        lemma_block(s, pos, n, k);
    }
}

/// A whole program, from any lookahead position and label counter, whether or
/// not it succeeds, never moves the counter back, and its code mentions only
/// labels allocated while it ran.
pub proof fn law_program_labels_fresh(s: Seq<u8>, pos: int, n: nat)
    ensures
        n <= spec_program(s, pos, n).labels,
        forall|k: nat|
            #[trigger] defs(spec_program(s, pos, n).ops, k) > 0 ==> n <= k < spec_program(
                s,
                pos,
                n,
            ).labels,
        forall|k: nat|
            #[trigger] refs(spec_program(s, pos, n).ops, k) > 0 ==> n <= k < spec_program(
                s,
                pos,
                n,
            ).labels,
{
    broadcast use group_counts;

    let o = spec_program(s, pos, n);
    lemma_block(s, pos, n, 0);
    assert forall|k: nat| #[trigger] defs(o.ops, k) > 0 implies n <= k < o.labels by {
        lemma_block(s, pos, n, k);
    }
    assert forall|k: nat| #[trigger] refs(o.ops, k) > 0 implies n <= k < o.labels by {
        lemma_block(s, pos, n, k);
    }
}

/// A statement, whatever it nests and whether or not it succeeds, never moves
/// the label counter back, and its code mentions only labels allocated while
/// it ran: from the counter's value before it up to its value after. So no two
/// statements, nested or in sequence, share a label.
pub proof fn law_labels_fresh(s: Seq<u8>, pos: int, n: nat)
    ensures
        n <= spec_statement(s, pos, n).labels,
        forall|k: nat|
            #[trigger] defs(spec_statement(s, pos, n).ops, k) > 0 ==> n <= k < spec_statement(
                s,
                pos,
                n,
            ).labels,
        forall|k: nat|
            #[trigger] refs(spec_statement(s, pos, n).ops, k) > 0 ==> n <= k < spec_statement(
                s,
                pos,
                n,
            ).labels,
{
    let o = spec_statement(s, pos, n);
    lemma_statement(s, pos, n, 0);
    assert forall|k: nat| #[trigger] defs(o.ops, k) > 0 implies n <= k < o.labels by {
        lemma_statement(s, pos, n, k);
    }
    assert forall|k: nat| #[trigger] refs(o.ops, k) > 0 implies n <= k < o.labels by {
        lemma_statement(s, pos, n, k);
    }
}

/// A failure stops the translation before anything more is written, and
/// nothing written is ever taken back. Take an input `t` on which the run on
/// `s` would have gone the same way up to where it stopped: one that agrees
/// with `s` before the lookahead where the run stopped and has there the same
/// character or, after a failure, the one that was wanted (after running out of
/// input: one that continues `s`). Then the code written for `s` is a prefix
/// of the code written for `t`, and a success on `s` is the same success on
/// `t`.
pub proof fn law_output_never_retracted(s: Seq<u8>, t: Seq<u8>)
    requires
        compatible(spec_program(s, 0, 0), s, t, true),
        spec_program(s, 0, 0).result is Ok ==> t[spec_program(s, 0, 0).pos] == s[spec_program(
            s,
            0,
            0,
        ).pos],
    ensures
        is_prefix(spec_program(s, 0, 0).ops, spec_program(t, 0, 0).ops),
        spec_program(s, 0, 0).result is Ok ==> spec_program(t, 0, 0) == spec_program(s, 0, 0),
{
    let o = spec_program(s, 0, 0);
    let b = spec_block(s, 0, 0);
    let bt = spec_block(t, 0, 0);
    lemma_block(s, 0, 0, 0);
    stream_block(s, t, 0, 0);
    if b.result is Err {
        assert(is_prefix(bt.ops, bt.ops.push(Op::Line(end_text()))));
    } else {
        assert(bt == b);
        assert(is_prefix(b.ops, b.ops.push(Op::Line(end_text()))));
    }
}

} // verus!
