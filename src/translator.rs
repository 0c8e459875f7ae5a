//! The translator: it owns the input, the lookahead position, the label
//! counter and the output, and runs the grammar over them.
use vstd::prelude::*;
use crate::text::{emit, emitln, label_text, label_name};
use crate::error::{TranslateError, Expected};
use crate::grammar::{
    Op, Outcome, render, render_op, lemma_render_push,
    lemma_render_concat, done, match_at, name_at, spec_program, spec_block, spec_statement, spec_if,
    spec_while, spec_loop, spec_repeat, spec_for, spec_do, spec_other, condition_text,
    expression_text, end_text, push_ebx_text, pop_ebx_text, mov_ebx_eax_text, sub_eax_ebx_text,
    mov_ecx_eax_text, load_text, store_text, decrement_text, jz, jmp, jo, jnz, loop_mnemonic,
    after,
};

verus! {

broadcast use {lemma_render_push, lemma_render_concat};

/// The state of a translation, as plain values.
pub struct TranslatorView {
    pub input: Seq<u8>,
    /// The index of the lookahead character in `input`.
    pub pos: int,
    /// How many labels have been allocated.
    pub labels: nat,
    /// What has been written so far.
    pub out: Seq<char>,
}

/// A translation in progress: the input, the lookahead position, the label
/// counter and the code written so far.
pub struct Translator {
    input: Vec<u8>,
    pos: usize,
    labels: usize,
    out: Vec<char>,
}

impl View for Translator {
    type V = TranslatorView;

    closed spec fn view(&self) -> TranslatorView {
        TranslatorView {
            input: self.input@,
            pos: self.pos as int,
            labels: self.labels as nat,
            out: self.out@,
        }
    }
}

/// A production run from `before` left the translator in `now` and returned
/// `r`, as the outcome `o` describes.
pub open spec fn completes(
    before: TranslatorView,
    now: TranslatorView,
    r: Result<(), TranslateError>,
    o: Outcome,
) -> bool {
    &&& now.input == before.input
    &&& r == o.result
    &&& now.pos == o.pos
    &&& now.labels == o.labels
    &&& now.out == before.out + render(o.ops)
}

impl Translator {
    /// The lookahead is a character of the input, and the label counter is
    /// bounded by twice the number of characters consumed.
    pub open spec fn wf(&self) -> bool {
        &&& 0 <= self@.pos < self@.input.len()
        &&& self@.input.len() <= usize::MAX / 2
        &&& self@.labels <= 2 * self@.pos
    }

    /// Starts a translation of `input`, with its first character as lookahead.
    /// The length bound is that of any byte buffer in memory.
    pub fn init(input: Vec<u8>) -> (r: Result<Translator, TranslateError>)
        requires
            input@.len() <= usize::MAX / 2,
        ensures
            input@.len() == 0 <==> r == Err::<Translator, TranslateError>(TranslateError::InputExhausted),
            input@.len() > 0 ==> r is Ok,
            r matches Ok(t) ==> t.wf() && t@ == (TranslatorView {
                input: input@,
                pos: 0,
                labels: 0,
                out: seq![],
            }),
    {
        if input.len() == 0 {
            Err(TranslateError::InputExhausted)
        } else {
            let t = Translator { input, pos: 0, labels: 0, out: Vec::new() };
            assert(t@.out =~= seq![]);
            Ok(t)
        }
    }

    /// The lookahead character.
    pub fn look(&self) -> (r: u8)
        requires
            self.wf(),
        ensures
            r == self@.input[self@.pos],
    {
        self.input[self.pos]
    }

    /// What has been written so far.
    pub fn output(&self) -> (r: &Vec<char>)
        ensures
            r@ == self@.out,
    {
        &self.out
    }

    /// Moves the lookahead to the next character; fails if there is none.
    pub fn read(&mut self) -> (r: Result<(), TranslateError>)
        requires
            old(self).wf(),
        ensures
            final(self).wf(),
            final(self)@.input == old(self)@.input,
            final(self)@.labels == old(self)@.labels,
            final(self)@.out == old(self)@.out,
            old(self)@.pos + 1 < old(self)@.input.len() ==> r == Ok::<(), TranslateError>(()) && final(self)@.pos == old(self)@.pos + 1,
            old(self)@.pos + 1 >= old(self)@.input.len() ==> r == Err::<(), TranslateError>(TranslateError::InputExhausted)
                && final(self)@.pos == old(self)@.pos,
    {
        if self.pos + 1 < self.input.len() {
            self.pos = self.pos + 1;
            Ok(())
        } else {
            Err(TranslateError::InputExhausted)
        }
    }

    /// Consumes the lookahead if it is `c`. On failure nothing is consumed or
    /// written.
    pub fn match_(&mut self, c: u8) -> (r: Result<(), TranslateError>)
        requires
            old(self).wf(),
        ensures
            final(self).wf(),
            final(self)@.input == old(self)@.input,
            final(self)@.labels == old(self)@.labels,
            final(self)@.out == old(self)@.out,
            r == match_at(old(self)@.input, old(self)@.pos, c),
            r is Ok ==> final(self)@.pos == old(self)@.pos + 1,
            r is Err ==> final(self)@.pos == old(self)@.pos,
    {
        if self.look() == c {
            self.read()
        } else {
            Err(TranslateError::UnexpectedCharacter(Expected::Char(c)))
        }
    }

    /// Consumes a letter and returns its upper-case form.
    pub fn get_name(&mut self) -> (r: Result<u8, TranslateError>)
        requires
            old(self).wf(),
        ensures
            final(self).wf(),
            final(self)@.input == old(self)@.input,
            final(self)@.labels == old(self)@.labels,
            final(self)@.out == old(self)@.out,
            r == name_at(old(self)@.input, old(self)@.pos),
            r is Ok ==> final(self)@.pos == old(self)@.pos + 1,
            r is Err ==> final(self)@.pos == old(self)@.pos,
    {
        let l = self.look();
        if !((65 <= l && l <= 90) || (97 <= l && l <= 122)) {
            return Err(TranslateError::InvalidName);
        }
        match self.read() {
            Err(e) => Err(e),
            Ok(()) => {
                if 97 <= l {
                    Ok(l - 32)
                } else {
                    Ok(l)
                }
            },
        }
    }

    /// Allocates the next label number.
    fn new_label(&mut self) -> (r: usize)
        requires
            old(self).wf(),
            old(self)@.labels + 1 <= 2 * old(self)@.pos,
        ensures
            final(self).wf(),
            r == old(self)@.labels,
            final(self)@ == (TranslatorView { labels: old(self)@.labels + 1, ..old(self)@ }),
    {
        let r = self.labels;
        self.labels = self.labels + 1;
        r
    }

    /// Writes the definition of a label, with no line break.
    fn post_label(&mut self, label: usize)
        ensures
            final(self)@ == (TranslatorView { out: old(self)@.out + render_op(Op::Def(label as nat)), ..old(self)@ }),
    {
        let mut t = label_text(label);
        t.push(':');
        emit(&mut self.out, t.as_slice());
        assert(final(self)@.out =~= old(self)@.out + render_op(Op::Def(label as nat)));
    }

    /// Writes a jump instruction to a label.
    fn jump(&mut self, mnemonic: &[char], label: usize)
        ensures
            final(self)@ == (TranslatorView { out: old(self)@.out + render_op(Op::Jump(mnemonic@, label as nat)), ..old(self)@ }),
    {
        let mut t: Vec<char> = Vec::new();
        let mut i: usize = 0;
        while i < mnemonic.len()
            invariant
                0 <= i <= mnemonic@.len(),
                t@ == mnemonic@.subrange(0, i as int),
            decreases mnemonic@.len() - i,
        {
            t.push(mnemonic[i]);
            i = i + 1;
            assert(t@ =~= mnemonic@.subrange(0, i as int));
        }
        t.push(' ');
        let l = label_text(label);
        let mut j: usize = 0;
        while j < l.len()
            invariant
                0 <= j <= l@.len(),
                l@ == label_name(label as nat),
                t@ == mnemonic@ + seq![' '] + l@.subrange(0, j as int),
            decreases l@.len() - j,
        {
            t.push(l[j]);
            j = j + 1;
            assert(t@ =~= mnemonic@ + seq![' '] + l@.subrange(0, j as int));
        }
        assert(t@ =~= mnemonic@ + seq![' '] + label_name(label as nat));
        emitln(&mut self.out, t.as_slice());
    }

    /// Writes an ordinary instruction line.
    fn line(&mut self, text: &[char])
        ensures
            final(self)@ == (TranslatorView { out: old(self)@.out + render_op(Op::Line(text@)), ..old(self)@ }),
    {
        emitln(&mut self.out, text);
    }
}


/// `now` is `before` with `op` written.
pub open spec fn wrote(before: TranslatorView, now: TranslatorView, op: Op) -> bool {
    now == TranslatorView { out: before.out + render_op(op), ..before }
}

impl Translator {
    /// `program ::= block "e"`: translates a whole program and writes `END`.
    /// On failure, what was written before it stays written.
    pub fn program(&mut self) -> (r: Result<(), TranslateError>)
        requires
            old(self).wf(),
        ensures
            final(self).wf(),
            completes(old(self)@, final(self)@, r, spec_program(old(self)@.input, old(self)@.pos, old(self)@.labels)),
    {
        let ghost s = self@.input;
        let ghost start = self@;
        match self.block() {
            Err(e) => return Err(e),
            Ok(()) => {},
        }
        let ghost b = spec_block(s, start.pos, start.labels);
        if self.look() != 'e' as u8 {
            return Err(TranslateError::UnexpectedCharacter(Expected::End));
        }
        let t: Vec<char> = vec!['E', 'N', 'D'];
        assert(t@ =~= end_text());
        self.line(t.as_slice());
        assert(self@.out =~= start.out + render(b.ops.push(Op::Line(end_text()))));
        Ok(())
    }

    /// `block ::= { statement }`: statements up to one of `e`, `l`, `u`, which
    /// is left as the lookahead.
    #[verifier::rlimit(100)]
    fn block(&mut self) -> (r: Result<(), TranslateError>)
        requires
            old(self).wf(),
        ensures
            final(self).wf(),
            completes(old(self)@, final(self)@, r, spec_block(old(self)@.input, old(self)@.pos, old(self)@.labels)),
            r is Ok ==> final(self)@.pos >= old(self)@.pos,
        decreases old(self)@.input.len() - old(self)@.pos, 2int,
    {
        let ghost s = self@.input;
        let ghost start = self@;
        let ghost mut acc: Seq<Op> = seq![];
        assert(start.out + render(acc) =~= start.out);
        assert(spec_block(s, start.pos, start.labels) =~= after(acc, spec_block(s, start.pos, start.labels)));
        loop
            invariant
                self.wf(),
                start == old(self)@,
                s == start.input,
                self@.input == s,
                self@.pos >= start.pos,
                self@.out == start.out + render(acc),
                spec_block(s, start.pos, start.labels) == after(acc, spec_block(s, self@.pos, self@.labels)),
            decreases s.len() - self@.pos,
        {
            let ghost before = self@;
            let c = self.look();
            if c == 'e' as u8 || c == 'l' as u8 || c == 'u' as u8 {
                assert(spec_block(s, before.pos, before.labels) == done(before.pos, before.labels, seq![]));
                assert(acc + seq![] =~= acc);
                return Ok(());
            }
            let r = self.statement();
            let ghost st = spec_statement(s, before.pos, before.labels);
            assert(completes(before, self@, r, st));
            match r {
                Err(e) => {
                    assert(spec_block(s, before.pos, before.labels) == st);
                    assert(self@.out =~= start.out + render(acc + st.ops));
                    return Err(e);
                },
                Ok(()) => {},
            }
            proof {
                let rest = spec_block(s, self@.pos, self@.labels);
                assert(spec_block(s, before.pos, before.labels) == after(st.ops, rest));
                assert((acc + st.ops) + rest.ops =~= acc + (st.ops + rest.ops));
                assert(self@.out =~= start.out + render(acc + st.ops));
                acc = acc + st.ops;
            }
        }
    }

    /// One statement, chosen by the lookahead.
    fn statement(&mut self) -> (r: Result<(), TranslateError>)
        requires
            old(self).wf(),
        ensures
            final(self).wf(),
            completes(old(self)@, final(self)@, r, spec_statement(old(self)@.input, old(self)@.pos, old(self)@.labels)),
            r is Ok ==> final(self)@.pos > old(self)@.pos,
        decreases old(self)@.input.len() - old(self)@.pos, 1int,
    {
        let c = self.look();
        if c == 'i' as u8 {
            self.if_()
        } else if c == 'w' as u8 {
            self.while_()
        } else if c == 'p' as u8 {
            self.loop_()
        } else if c == 'r' as u8 {
            self.repeat()
        } else if c == 'f' as u8 {
            self.for_()
        } else if c == 'd' as u8 {
            self.do_()
        } else {
            self.other()
        }
    }

    /// `if ::= i condition block [ l block ] e`
    #[verifier::rlimit(60)]
    fn if_(&mut self) -> (r: Result<(), TranslateError>)
        requires
            old(self).wf(),
        ensures
            final(self).wf(),
            completes(old(self)@, final(self)@, r, spec_if(old(self)@.input, old(self)@.pos, old(self)@.labels)),
            r is Ok ==> final(self)@.pos > old(self)@.pos,
        decreases old(self)@.input.len() - old(self)@.pos, 0int,
    {
        let ghost s = self@.input;
        let ghost start = self@;
        let ghost n = start.labels;
        let ghost mut ops: Seq<Op> = Seq::empty();
        assert(start.out + render(ops) =~= start.out);
        match self.match_('i' as u8) {
            Err(e) => return Err(e),
            Ok(()) => {},
        }
        let label1 = self.new_label();
        let mut label2 = label1;
        self.condition();
        proof {
            ops = ops.push(Op::Line(condition_text()));
        }
        assert(self@.out =~= start.out + render(ops));
        let m: Vec<char> = vec!['J', 'Z'];
        assert(m@ =~= jz());
        self.jump(m.as_slice(), label1);
        proof {
            ops = ops.push(Op::Jump(jz(), n));
        }
        assert(self@.out =~= start.out + render(ops));
        assert(ops =~= seq![Op::Line(condition_text())].push(Op::Jump(jz(), n)));
        let ghost b = spec_block(s, self@.pos, self@.labels);
        match self.block() {
            Err(e) => {
                assert(self@.out =~= start.out + render(ops + b.ops));
                return Err(e);
            },
            Ok(()) => {},
        }
        proof {
            ops = ops + b.ops;
        }
        assert(self@.out =~= start.out + render(ops));
        if self.look() == 'l' as u8 {
            match self.match_('l' as u8) {
                Err(e) => return Err(e),
                Ok(()) => {},
            }
            label2 = self.new_label();
            let m: Vec<char> = vec!['J', 'M', 'P'];
            assert(m@ =~= jmp());
            self.jump(m.as_slice(), label2);
            proof {
                ops = ops.push(Op::Jump(jmp(), b.labels));
            }
            assert(self@.out =~= start.out + render(ops));
            self.post_label(label1);
            proof {
                ops = ops.push(Op::Def(n));
            }
            assert(self@.out =~= start.out + render(ops));
            assert(ops =~= (seq![Op::Line(condition_text())].push(Op::Jump(jz(), n)) + b.ops).push(Op::Jump(jmp(), b.labels)).push(Op::Def(n)));
            let ghost c = spec_block(s, self@.pos, self@.labels);
            match self.block() {
                Err(e) => {
                    assert(self@.out =~= start.out + render(ops + c.ops));
                    return Err(e);
                },
                Ok(()) => {},
            }
            proof {
                ops = ops + c.ops;
            }
            assert(self@.out =~= start.out + render(ops));
        }
        match self.match_('e' as u8) {
            Err(e) => return Err(e),
            Ok(()) => {},
        }
        self.post_label(label2);
        proof {
            ops = ops.push(Op::Def(label2 as nat));
        }
        assert(self@.out =~= start.out + render(ops));
        Ok(())
    }

    /// `while ::= w condition block e`
    fn while_(&mut self) -> (r: Result<(), TranslateError>)
        requires
            old(self).wf(),
        ensures
            final(self).wf(),
            completes(old(self)@, final(self)@, r, spec_while(old(self)@.input, old(self)@.pos, old(self)@.labels)),
            r is Ok ==> final(self)@.pos > old(self)@.pos,
        decreases old(self)@.input.len() - old(self)@.pos, 0int,
    {
        let ghost s = self@.input;
        let ghost start = self@;
        let ghost n = start.labels;
        let ghost mut ops: Seq<Op> = Seq::empty();
        assert(start.out + render(ops) =~= start.out);
        match self.match_('w' as u8) {
            Err(e) => return Err(e),
            Ok(()) => {},
        }
        let label1 = self.new_label();
        let label2 = self.new_label();
        self.post_label(label1);
        proof {
            ops = ops.push(Op::Def(n));
        }
        assert(self@.out =~= start.out + render(ops));
        self.condition();
        proof {
            ops = ops.push(Op::Line(condition_text()));
        }
        assert(self@.out =~= start.out + render(ops));
        let m: Vec<char> = vec!['J', 'Z'];
        assert(m@ =~= jz());
        self.jump(m.as_slice(), label2);
        proof {
            ops = ops.push(Op::Jump(jz(), n + 1));
        }
        assert(self@.out =~= start.out + render(ops));
        assert(ops =~= seq![Op::Def(n)].push(Op::Line(condition_text())).push(Op::Jump(jz(), n + 1)));
        let ghost b = spec_block(s, self@.pos, self@.labels);
        match self.block() {
            Err(e) => {
                assert(self@.out =~= start.out + render(ops + b.ops));
                return Err(e);
            },
            Ok(()) => {},
        }
        proof {
            ops = ops + b.ops;
        }
        assert(self@.out =~= start.out + render(ops));
        match self.match_('e' as u8) {
            Err(e) => return Err(e),
            Ok(()) => {},
        }
        let m: Vec<char> = vec!['J', 'M', 'P'];
        assert(m@ =~= jmp());
        self.jump(m.as_slice(), label1);
        proof {
            ops = ops.push(Op::Jump(jmp(), n));
        }
        assert(self@.out =~= start.out + render(ops));
        self.post_label(label2);
        proof {
            ops = ops.push(Op::Def(n + 1));
        }
        assert(self@.out =~= start.out + render(ops));
        Ok(())
    }

    /// `loop ::= p block e`
    fn loop_(&mut self) -> (r: Result<(), TranslateError>)
        requires
            old(self).wf(),
        ensures
            final(self).wf(),
            completes(old(self)@, final(self)@, r, spec_loop(old(self)@.input, old(self)@.pos, old(self)@.labels)),
            r is Ok ==> final(self)@.pos > old(self)@.pos,
        decreases old(self)@.input.len() - old(self)@.pos, 0int,
    {
        let ghost s = self@.input;
        let ghost start = self@;
        let ghost n = start.labels;
        let ghost mut ops: Seq<Op> = Seq::empty();
        assert(start.out + render(ops) =~= start.out);
        match self.match_('p' as u8) {
            Err(e) => return Err(e),
            Ok(()) => {},
        }
        let label = self.new_label();
        self.post_label(label);
        proof {
            ops = ops.push(Op::Def(n));
        }
        assert(self@.out =~= start.out + render(ops));
        assert(ops =~= seq![Op::Def(n)]);
        let ghost b = spec_block(s, self@.pos, self@.labels);
        match self.block() {
            Err(e) => {
                assert(self@.out =~= start.out + render(ops + b.ops));
                return Err(e);
            },
            Ok(()) => {},
        }
        proof {
            ops = ops + b.ops;
        }
        assert(self@.out =~= start.out + render(ops));
        match self.match_('e' as u8) {
            Err(e) => return Err(e),
            Ok(()) => {},
        }
        let m: Vec<char> = vec!['J', 'M', 'P'];
        assert(m@ =~= jmp());
        self.jump(m.as_slice(), label);
        proof {
            ops = ops.push(Op::Jump(jmp(), n));
        }
        assert(self@.out =~= start.out + render(ops));
        Ok(())
    }

    /// `repeat ::= r block u condition`
    fn repeat(&mut self) -> (r: Result<(), TranslateError>)
        requires
            old(self).wf(),
        ensures
            final(self).wf(),
            completes(old(self)@, final(self)@, r, spec_repeat(old(self)@.input, old(self)@.pos, old(self)@.labels)),
            r is Ok ==> final(self)@.pos > old(self)@.pos,
        decreases old(self)@.input.len() - old(self)@.pos, 0int,
    {
        let ghost s = self@.input;
        let ghost start = self@;
        let ghost n = start.labels;
        let ghost mut ops: Seq<Op> = Seq::empty();
        assert(start.out + render(ops) =~= start.out);
        match self.match_('r' as u8) {
            Err(e) => return Err(e),
            Ok(()) => {},
        }
        let label = self.new_label();
        self.post_label(label);
        proof {
            ops = ops.push(Op::Def(n));
        }
        assert(self@.out =~= start.out + render(ops));
        assert(ops =~= seq![Op::Def(n)]);
        let ghost b = spec_block(s, self@.pos, self@.labels);
        match self.block() {
            Err(e) => {
                assert(self@.out =~= start.out + render(ops + b.ops));
                return Err(e);
            },
            Ok(()) => {},
        }
        proof {
            ops = ops + b.ops;
        }
        assert(self@.out =~= start.out + render(ops));
        match self.match_('u' as u8) {
            Err(e) => return Err(e),
            Ok(()) => {},
        }
        self.condition();
        proof {
            ops = ops.push(Op::Line(condition_text()));
        }
        assert(self@.out =~= start.out + render(ops));
        let m: Vec<char> = vec!['J', 'Z'];
        assert(m@ =~= jz());
        self.jump(m.as_slice(), label);
        proof {
            ops = ops.push(Op::Jump(jz(), n));
        }
        assert(self@.out =~= start.out + render(ops));
        Ok(())
    }

    /// `for ::= f name = expression expression block e`, kept between a push
    /// and a pop of the scratch register.
    #[verifier::rlimit(60)]
    fn for_(&mut self) -> (r: Result<(), TranslateError>)
        requires
            old(self).wf(),
        ensures
            final(self).wf(),
            completes(old(self)@, final(self)@, r, spec_for(old(self)@.input, old(self)@.pos, old(self)@.labels)),
            r is Ok ==> final(self)@.pos > old(self)@.pos,
        decreases old(self)@.input.len() - old(self)@.pos, 0int,
    {
        let ghost s = self@.input;
        let ghost start = self@;
        let ghost n = start.labels;
        let ghost mut ops: Seq<Op> = Seq::empty();
        assert(start.out + render(ops) =~= start.out);
        let t: Vec<char> = vec!['P', 'U', 'S', 'H', ' ', 'E', 'B', 'X'];
        assert(t@ =~= push_ebx_text());
        self.line(t.as_slice());
        proof {
            ops = ops.push(Op::Line(push_ebx_text()));
        }
        assert(self@.out =~= start.out + render(ops));
        match self.match_('f' as u8) {
            Err(e) => return Err(e),
            Ok(()) => {},
        }
        let name = match self.get_name() {
            Err(e) => return Err(e),
            Ok(c) => c as char,
        };
        match self.match_('=' as u8) {
            Err(e) => return Err(e),
            Ok(()) => {},
        }
        let t: Vec<char> = vec!['<', 's', 'o', 'm', 'e', 'h', 'o', 'w', ' ', 'l', 'o', 'a', 'd', ' ', name, '>'];
        assert(t@ =~= load_text(name));
        self.line(t.as_slice());
        proof {
            ops = ops.push(Op::Line(load_text(name)));
        }
        assert(self@.out =~= start.out + render(ops));
        self.expression();
        proof {
            ops = ops.push(Op::Line(expression_text()));
        }
        assert(self@.out =~= start.out + render(ops));
        let t: Vec<char> = vec!['M', 'O', 'V', ' ', 'E', 'B', 'X', ',', ' ', 'E', 'A', 'X'];
        assert(t@ =~= mov_ebx_eax_text());
        self.line(t.as_slice());
        proof {
            ops = ops.push(Op::Line(mov_ebx_eax_text()));
        }
        assert(self@.out =~= start.out + render(ops));
        self.expression();
        proof {
            ops = ops.push(Op::Line(expression_text()));
        }
        assert(self@.out =~= start.out + render(ops));
        let t: Vec<char> = vec!['S', 'U', 'B', ' ', 'E', 'A', 'X', ',', ' ', 'E', 'B', 'X'];
        assert(t@ =~= sub_eax_ebx_text());
        self.line(t.as_slice());
        proof {
            ops = ops.push(Op::Line(sub_eax_ebx_text()));
        }
        assert(self@.out =~= start.out + render(ops));
        let label1 = self.new_label();
        let label2 = self.new_label();
        let m: Vec<char> = vec!['J', 'O'];
        assert(m@ =~= jo());
        self.jump(m.as_slice(), label2);
        proof {
            ops = ops.push(Op::Jump(jo(), n + 1));
        }
        assert(self@.out =~= start.out + render(ops));
        let t: Vec<char> = vec!['<', 's', 'o', 'm', 'e', 'h', 'o', 'w', ' ', 's', 't', 'o', 'r', 'e', ' ', 'E', 'A', 'X', ' ', 't', 'o', ' ', name, '>'];
        assert(t@ =~= store_text(name));
        self.line(t.as_slice());
        proof {
            ops = ops.push(Op::Line(store_text(name)));
        }
        assert(self@.out =~= start.out + render(ops));
        self.post_label(label1);
        proof {
            ops = ops.push(Op::Def(n));
        }
        assert(self@.out =~= start.out + render(ops));
        assert(ops =~= seq![Op::Line(push_ebx_text())]
            .push(Op::Line(load_text(name)))
            .push(Op::Line(expression_text()))
            .push(Op::Line(mov_ebx_eax_text()))
            .push(Op::Line(expression_text()))
            .push(Op::Line(sub_eax_ebx_text()))
            .push(Op::Jump(jo(), n + 1))
            .push(Op::Line(store_text(name)))
            .push(Op::Def(n)));
        let ghost b = spec_block(s, self@.pos, self@.labels);
        match self.block() {
            Err(e) => {
                assert(self@.out =~= start.out + render(ops + b.ops));
                return Err(e);
            },
            Ok(()) => {},
        }
        proof {
            ops = ops + b.ops;
        }
        assert(self@.out =~= start.out + render(ops));
        match self.match_('e' as u8) {
            Err(e) => return Err(e),
            Ok(()) => {},
        }
        let t: Vec<char> = vec!['<', 's', 'o', 'm', 'e', 'h', 'o', 'w', ' ', 'S', 'U', 'B', ' ', name, ',', ' ', '1', '>'];
        assert(t@ =~= decrement_text(name));
        self.line(t.as_slice());
        proof {
            ops = ops.push(Op::Line(decrement_text(name)));
        }
        assert(self@.out =~= start.out + render(ops));
        let m: Vec<char> = vec!['J', 'N', 'Z'];
        assert(m@ =~= jnz());
        self.jump(m.as_slice(), label1);
        proof {
            ops = ops.push(Op::Jump(jnz(), n));
        }
        assert(self@.out =~= start.out + render(ops));
        self.post_label(label2);
        proof {
            ops = ops.push(Op::Def(n + 1));
        }
        assert(self@.out =~= start.out + render(ops));
        let t: Vec<char> = vec!['P', 'O', 'P', ' ', 'E', 'B', 'X'];
        assert(t@ =~= pop_ebx_text());
        self.line(t.as_slice());
        proof {
            ops = ops.push(Op::Line(pop_ebx_text()));
        }
        assert(self@.out =~= start.out + render(ops));
        Ok(())
    }

    /// `do ::= d expression block e`; the loop instruction comes before the
    /// terminator is matched.
    fn do_(&mut self) -> (r: Result<(), TranslateError>)
        requires
            old(self).wf(),
        ensures
            final(self).wf(),
            completes(old(self)@, final(self)@, r, spec_do(old(self)@.input, old(self)@.pos, old(self)@.labels)),
            r is Ok ==> final(self)@.pos > old(self)@.pos,
        decreases old(self)@.input.len() - old(self)@.pos, 0int,
    {
        let ghost s = self@.input;
        let ghost start = self@;
        let ghost n = start.labels;
        let ghost mut ops: Seq<Op> = Seq::empty();
        assert(start.out + render(ops) =~= start.out);
        match self.match_('d' as u8) {
            Err(e) => return Err(e),
            Ok(()) => {},
        }
        let label = self.new_label();
        self.expression();
        proof {
            ops = ops.push(Op::Line(expression_text()));
        }
        assert(self@.out =~= start.out + render(ops));
        let t: Vec<char> = vec!['M', 'O', 'V', ' ', 'E', 'C', 'X', ',', ' ', 'E', 'A', 'X'];
        assert(t@ =~= mov_ecx_eax_text());
        self.line(t.as_slice());
        proof {
            ops = ops.push(Op::Line(mov_ecx_eax_text()));
        }
        assert(self@.out =~= start.out + render(ops));
        self.post_label(label);
        proof {
            ops = ops.push(Op::Def(n));
        }
        assert(self@.out =~= start.out + render(ops));
        assert(ops =~= seq![Op::Line(expression_text())].push(Op::Line(mov_ecx_eax_text())).push(Op::Def(n)));
        let ghost b = spec_block(s, self@.pos, self@.labels);
        match self.block() {
            Err(e) => {
                assert(self@.out =~= start.out + render(ops + b.ops));
                return Err(e);
            },
            Ok(()) => {},
        }
        proof {
            ops = ops + b.ops;
        }
        assert(self@.out =~= start.out + render(ops));
        let m: Vec<char> = vec!['L', 'O', 'O', 'P'];
        assert(m@ =~= loop_mnemonic());
        self.jump(m.as_slice(), label);
        proof {
            ops = ops.push(Op::Jump(loop_mnemonic(), n));
        }
        assert(self@.out =~= start.out + render(ops));
        self.match_('e' as u8)
    }

    /// `other ::= name`: writes the name as an instruction line.
    fn other(&mut self) -> (r: Result<(), TranslateError>)
        requires
            old(self).wf(),
        ensures
            final(self).wf(),
            completes(old(self)@, final(self)@, r, spec_other(old(self)@.input, old(self)@.pos, old(self)@.labels)),
            r is Ok ==> final(self)@.pos > old(self)@.pos,
    {
        let ghost start = self@;
        match self.get_name() {
            Err(e) => {
                assert(start.out + render(seq![]) =~= start.out);
                Err(e)
            },
            Ok(c) => {
                let t: Vec<char> = vec![c as char];
                self.line(t.as_slice());
                assert(self@.out =~= start.out + render(seq![Op::Line(seq![c as char])]));
                Ok(())
            },
        }
    }

    /// The condition placeholder: writes `<condition>` and reads nothing.
    fn condition(&mut self)
        ensures
            wrote(old(self)@, final(self)@, Op::Line(condition_text())),
    {
        let t: Vec<char> = vec!['<', 'c', 'o', 'n', 'd', 'i', 't', 'i', 'o', 'n', '>'];
        assert(t@ =~= condition_text());
        self.line(t.as_slice());
    }

    /// The expression placeholder: writes `<expression>` and reads nothing.
    fn expression(&mut self)
        ensures
            wrote(old(self)@, final(self)@, Op::Line(expression_text())),
    {
        let t: Vec<char> = vec!['<', 'e', 'x', 'p', 'r', 'e', 's', 's', 'i', 'o', 'n', '>'];
        assert(t@ =~= expression_text());
        self.line(t.as_slice());
    }
}

} // verus!
