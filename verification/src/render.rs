//! Rendering a configuration: the one-line picture `STATE: SYM SYM ... `
//! and the column where the caret on the following line marks the head.
//! Symbols may have different widths, so the caret column is a character
//! offset into the rendered line, not the head's tape index.

use vstd::prelude::*;

use crate::machine::Machine;

verus! {

/// The rendered tape: each symbol followed by a single space.
pub open spec fn render_tape(tape: Seq<Seq<char>>) -> Seq<char>
    decreases tape.len(),
{
    if tape.len() == 0 {
        seq![]
    } else {
        tape[0] + seq![' '] + render_tape(tape.drop_first())
    }
}

/// The full configuration line: the state name, a colon and a space,
/// then the rendered tape.
pub open spec fn render_line(state: Seq<char>, tape: Seq<Seq<char>>) -> Seq<char> {
    state + seq![':', ' '] + render_tape(tape)
}

/// The character column of the head cell's first character in the
/// rendered line: everything before the head's symbol, measured in
/// characters.
pub open spec fn caret_column(state: Seq<char>, tape: Seq<Seq<char>>, head: int) -> int {
    state.len() + 2 + render_tape(tape.take(head)).len() as int
}

/// Appending one symbol to the rendered tape appends its characters and
/// one space.
pub proof fn lemma_render_tape_push(tape: Seq<Seq<char>>, sym: Seq<char>)
    ensures
        render_tape(tape.push(sym)) == render_tape(tape) + sym + seq![' '],
    decreases tape.len(),
{
    if tape.len() == 0 {
        assert(tape.push(sym)[0] == sym);
        assert(tape.push(sym).drop_first() =~= Seq::<Seq<char>>::empty());
        assert(render_tape(Seq::<Seq<char>>::empty()) =~= Seq::<char>::empty());
        assert(render_tape(tape.push(sym)) =~= render_tape(tape) + sym + seq![' ']);
    } else {
        assert(tape.push(sym).drop_first() =~= tape.drop_first().push(sym));
        lemma_render_tape_push(tape.drop_first(), sym);
        assert(render_tape(tape.push(sym)) =~= render_tape(tape) + sym + seq![' ']);
    }
}

/// The rendered tape carries the head symbol exactly at its offset: the
/// characters of `render_tape(tape)` from the length of the rendered
/// prefix on are the head cell's characters.
pub proof fn lemma_render_tape_locates(tape: Seq<Seq<char>>, head: int)
    requires
        0 <= head < tape.len(),
    ensures
        ({
            let off = render_tape(tape.take(head)).len() as int;
            &&& off + tape[head].len() <= render_tape(tape).len()
            &&& render_tape(tape).subrange(off, off + tape[head].len() as int) == tape[head]
        }),
    decreases head,
{
    if head == 0 {
        assert(tape.take(0) =~= Seq::<Seq<char>>::empty());
        assert(render_tape(tape).subrange(0, tape[0].len() as int) =~= tape[0]);
    } else {
        let tail = tape.drop_first();
        lemma_render_tape_locates(tail, head - 1);
        assert(tape.take(head).drop_first() =~= tail.take(head - 1));
        assert(tape.take(head)[0] == tape[0]);
        let off_tail = render_tape(tail.take(head - 1)).len() as int;
        let off = render_tape(tape.take(head)).len() as int;
        assert(off == tape[0].len() + 1 + off_tail);
        assert(render_tape(tape) == tape[0] + seq![' '] + render_tape(tail));
        assert(tail[head - 1] == tape[head]);
        assert(render_tape(tape).subrange(off, off + tape[head].len() as int) =~= render_tape(
            tail,
        ).subrange(off_tail, off_tail + tape[head].len() as int));
    }
}

/// Round trip between a printed configuration and its head: re-deriving
/// the head's position from the caret column leads back to the head
/// cell's rendered start offset, and the line carries exactly the head
/// symbol there. Token boundaries are single-space joined, so the offset
/// is the rendered prefix's character length.
pub proof fn lemma_caret_marks_head(state: Seq<char>, tape: Seq<Seq<char>>, head: int)
    requires
        0 <= head < tape.len(),
    ensures
        ({
            let line = render_line(state, tape);
            let col = caret_column(state, tape, head);
            &&& 0 <= col
            &&& col + tape[head].len() as int <= line.len()
            &&& line.subrange(col, col + tape[head].len() as int) == tape[head]
        }),
{
    lemma_render_tape_locates(tape, head);
    let off = render_tape(tape.take(head)).len() as int;
    let col = caret_column(state, tape, head);
    let line = render_line(state, tape);
    assert(line.subrange(col, col + tape[head].len() as int) =~= render_tape(tape).subrange(
        off,
        off + tape[head].len() as int,
    ));
}

impl Machine {
    /// The two-line output block's data for the current configuration:
    /// the rendered line, and the character column under which the caret
    /// marks the head. The caller prints the line, then that many spaces
    /// and a caret.
    #[verifier::loop_isolation(false)]
    pub fn render(&self) -> (r: (String, usize))
        requires
            self.wf(),
        ensures
            r.0@ == render_line(self@.state, self@.tape),
            r.1 == caret_column(self@.state, self@.tape, self@.head),
    {
        proof {
            reveal_strlit(": ");
            reveal_strlit(" ");
        }
        let mut line: String = self.state.name.clone();
        line.append(": ");
        proof {
            assert(line@ =~= self@.state + seq![':', ' ']);
            assert(self@.tape.take(0) =~= Seq::<Seq<char>>::empty());
            assert(line@ =~= self@.state + seq![':', ' '] + render_tape(self@.tape.take(0)));
        }
        let mut column: usize = 0;
        let mut i: usize = 0;
        while i < self.tape.len()
            invariant
                i <= self.tape.len(),
                self.wf(),
                line@ == self@.state + seq![':', ' '] + render_tape(self@.tape.take(i as int)),
                self@.head >= i ==> column == 0,
                self@.head < i ==> column == caret_column(self@.state, self@.tape, self@.head),
            decreases self.tape.len() - i,
        {
            if i == self.head {
                column = line.as_str().unicode_len();
            }
            let ghost before = line@;
            line.append(self.tape[i].name.as_str());
            line.append(" ");
            proof {
                assert(line@ =~= before + self@.tape[i as int] + seq![' ']);
                assert(self@.tape.take(i + 1) =~= self@.tape.take(i as int).push(
                    self@.tape[i as int],
                ));
                lemma_render_tape_push(self@.tape.take(i as int), self@.tape[i as int]);
                assert(line@ =~= self@.state + seq![':', ' '] + render_tape(
                    self@.tape.take(i + 1),
                ));
            }
            i = i + 1;
        }
        proof {
            assert(self@.tape.take(self@.tape.len() as int) =~= self@.tape);
        }
        (line, column)
    }
}

} // verus!
