//! The line engine: a state machine over the bytes of the input that tracks
//! line starts, numbering, deferred carriage returns and squeezed blank
//! lines, and that gives the same output however the input is cut into
//! chunks.
use crate::error::CatResult;
use crate::options::NumberingMode;
use crate::options::Options;
use crate::render::append;
use crate::render::caret_m;
use crate::render::line_number_field;
use crate::render::write_end;
use crate::render::write_end_of_line;
use crate::render::write_line_number;
use crate::render::CARRIAGE_RETURN;
use crate::render::NEWLINE;
use vstd::prelude::*;
use vstd::slice::slice_subrange;

verus! {

/// The state of one annotated run. It threads through every chunk of every
/// source of the run.
#[derive(Debug, Clone, Copy)]
pub struct State {
    /// The number of lines numbered so far
    pub line_number: usize,
    /// Whether the output cursor is at the beginning of a new line
    pub at_line_start: bool,
    /// Whether we skipped a \r, which still needs to be printed
    pub skipped_carriage_return: bool,
    /// Whether we have already printed a blank line
    pub one_blank_kept: bool,
}

/// The state of a run as a mathematical value: the count of numbered lines
/// is unbounded.
pub ghost struct Position {
    pub line_number: nat,
    pub at_line_start: bool,
    pub skipped_carriage_return: bool,
    pub one_blank_kept: bool,
}

impl Position {
    /// Where every run starts: at a line start, nothing numbered, nothing
    /// deferred.
    pub open spec fn start() -> Position {
        Position {
            line_number: 0,
            at_line_start: true,
            skipped_carriage_return: false,
            one_blank_kept: false,
        }
    }

    /// The line at the cursor has no byte yet, not even a deferred one.
    pub open spec fn is_fresh(self) -> bool {
        self.at_line_start && !self.skipped_carriage_return
    }
}

impl View for State {
    type V = Position;

    open spec fn view(&self) -> Position {
        Position {
            line_number: self.line_number as nat,
            at_line_start: self.at_line_start,
            skipped_carriage_return: self.skipped_carriage_return,
            one_blank_kept: self.one_blank_kept,
        }
    }
}

/// What a deferred carriage return becomes once the byte after it is known.
/// Before a newline it is `^M` where line ends are shown, else itself;
/// before anything else, and at the end of the input, it is `^M` where
/// bytes are escaped, else itself.
pub open spec fn deferred_out(options: Options, p: Position, before_newline: bool) -> Seq<u8> {
    if !p.skipped_carriage_return {
        Seq::empty()
    } else if (before_newline && options.show_ends) || (!before_newline
        && options.show_nonprinting) {
        caret_m()
    } else {
        seq![CARRIAGE_RETURN]
    }
}

/// The engine meets a newline.
pub open spec fn step_newline(options: Options, p: Position) -> (Position, Seq<u8>) {
    if p.is_fresh() && options.squeeze_blank && p.one_blank_kept {
        (Position { at_line_start: true, ..p }, Seq::empty())
    } else {
        let numbered = p.is_fresh() && options.number == NumberingMode::All;
        (
            Position {
                line_number: if numbered {
                    p.line_number + 1
                } else {
                    p.line_number
                },
                at_line_start: true,
                skipped_carriage_return: false,
                one_blank_kept: p.is_fresh(),
            },
            deferred_out(options, p, true) + (if numbered {
                line_number_field(p.line_number + 1)
            } else {
                Seq::empty()
            }) + options.end_of_line_bytes(),
        )
    }
}

/// The engine meets a byte that is no newline, before that byte is
/// rendered: a deferred carriage return is resolved, and a fresh line gets
/// its number where lines are numbered.
pub open spec fn open_line(options: Options, p: Position) -> (Position, Seq<u8>) {
    let numbered = p.is_fresh() && options.number != NumberingMode::Off;
    (
        Position {
            line_number: if numbered {
                p.line_number + 1
            } else {
                p.line_number
            },
            at_line_start: false,
            skipped_carriage_return: false,
            one_blank_kept: false,
        },
        deferred_out(options, p, false) + (if numbered {
            line_number_field(p.line_number + 1)
        } else {
            Seq::empty()
        }),
    )
}

/// The engine meets a byte that is no newline. A carriage return is
/// deferred unless bytes are escaped; any other byte is rendered.
pub open spec fn step_body(options: Options, p: Position, b: u8) -> (Position, Seq<u8>) {
    let (q, out) = open_line(options, p);
    if b == CARRIAGE_RETURN && !options.show_nonprinting {
        (Position { skipped_carriage_return: true, ..q }, out)
    } else {
        (q, out + options.rendered(seq![b]))
    }
}

/// One byte of input: the next state and what is written.
pub open spec fn step(options: Options, p: Position, b: u8) -> (Position, Seq<u8>) {
    if b == NEWLINE {
        step_newline(options, p)
    } else {
        step_body(options, p, b)
    }
}

/// The bytes of `s`, one after the other, from state `p`: the state after
/// the last of them and all that is written.
#[verifier::opaque]
pub open spec fn run(options: Options, p: Position, s: Seq<u8>) -> (Position, Seq<u8>)
    decreases s.len(),
{
    if s.len() == 0 {
        (p, Seq::empty())
    } else {
        let (q, out) = run(options, p, s.drop_last());
        let (r, more) = step(options, q, s.last());
        (r, out + more)
    }
}

/// The chunks joined into one input, in their order.
pub open spec fn joined(chunks: Seq<Seq<u8>>) -> Seq<u8>
    decreases chunks.len(),
{
    if chunks.len() == 0 {
        Seq::empty()
    } else {
        joined(chunks.drop_last()) + chunks.last()
    }
}

/// The chunks taken in one after the other, each from the state that the
/// one before it left: the state after the last chunk and all that is
/// written.
pub open spec fn run_chunks(options: Options, p: Position, chunks: Seq<Seq<u8>>) -> (
    Position,
    Seq<u8>,
)
    decreases chunks.len(),
{
    if chunks.len() == 0 {
        (p, Seq::empty())
    } else {
        let (q, out) = run_chunks(options, p, chunks.drop_last());
        let (r, more) = run(options, q, chunks.last());
        (r, out + more)
    }
}

/// The contents of the sources, in their order.
pub open spec fn contents(sources: &[Vec<u8>]) -> Seq<Seq<u8>> {
    Seq::new(sources@.len(), |i: int| sources@[i]@)
}

/// The whole annotated output for `s`: the run from the start, then the
/// carriage return that is still deferred when the input ends.
pub open spec fn annotated(options: Options, s: Seq<u8>) -> Seq<u8> {
    let (p, out) = run(options, Position::start(), s);
    out + deferred_out(options, p, false)
}

/// The output for the input `s`: a plain copy where no option asks for
/// more, else the annotated output.
pub open spec fn cat_output(options: Options, s: Seq<u8>) -> Seq<u8> {
    if options.is_plain() {
        s
    } else {
        annotated(options, s)
    }
}

impl State {
    /// The state at the start of a run.
    pub fn new() -> (r: State)
        ensures
            r@ == Position::start(),
    {
        State {
            line_number: 0,
            at_line_start: true,
            skipped_carriage_return: false,
            one_blank_kept: false,
        }
    }
}

/// The rendering of a stretch that ends in `b` is that of the stretch
/// before it, then that of `b`.
pub proof fn lemma_rendered_push(options: Options, s: Seq<u8>, b: u8)
    ensures
        options.rendered(s.push(b)) == options.rendered(s) + options.rendered(seq![b]),
{
    let one = seq![b];
    assert(s.push(b).drop_last() =~= s);
    assert(one.drop_last() =~= Seq::<u8>::empty());
    assert(one.last() == b);
    reveal_with_fuel(crate::render::escaped, 2);
    reveal_with_fuel(crate::render::marked, 2);
    assert(options.rendered(one) =~= if options.show_nonprinting {
        crate::render::escaped_byte(b, options.tab_bytes())
    } else if options.show_tabs {
        crate::render::marked_byte(b)
    } else {
        one
    });
    assert(options.rendered(s.push(b)) =~= options.rendered(s) + options.rendered(one));
}

/// A stretch of body bytes opens the line once and is then rendered as a
/// whole; the state after it is in the middle of a line.
pub proof fn lemma_run_body(options: Options, p: Position, s: Seq<u8>)
    requires
        s.len() > 0,
        forall|i: int|
            0 <= i < s.len() ==> !crate::render::is_stop(
                #[trigger] s[i],
                !options.show_nonprinting,
            ),
    ensures
        run(options, p, s) == (
            open_line(options, p).0,
            open_line(options, p).1 + options.rendered(s),
        ),
    decreases s.len(),
{
    reveal_with_fuel(run, 2);
    let init = s.drop_last();
    let b = s.last();
    assert(s =~= init.push(b));
    lemma_rendered_push(options, init, b);
    let (q, out) = open_line(options, p);
    if init.len() == 0 {
        assert(run(options, p, init) == (p, Seq::<u8>::empty()));
        assert(options.rendered(init) =~= Seq::<u8>::empty()) by {
            reveal_with_fuel(crate::render::escaped, 1);
            reveal_with_fuel(crate::render::marked, 1);
        }
        assert(run(options, p, s).1 =~= out + options.rendered(s));
    } else {
        lemma_run_body(options, p, init);
        assert(open_line(options, q) == (q, Seq::<u8>::empty()));
        assert(run(options, p, s).1 =~= out + options.rendered(s));
    }
}

/// A stretch of a line as the engine takes it in one go: body bytes up to a
/// newline, a deferred carriage return or the end of the chunk, and the
/// byte that stopped the scan, if there is one.
#[verifier::rlimit(40)]
pub proof fn lemma_run_stretch(options: Options, p: Position, rest: Seq<u8>, offset: int)
    requires
        crate::render::is_body_length(rest, offset, !options.show_nonprinting),
        rest.len() > 0,
        rest[0] != NEWLINE,
    ensures
        offset == rest.len() ==> run(options, p, rest) == (
            open_line(options, p).0,
            open_line(options, p).1 + options.rendered(rest),
        ),
        offset < rest.len() && rest[offset] == CARRIAGE_RETURN ==> run(
            options,
            p,
            rest.subrange(0, offset + 1),
        ) == (
            Position { skipped_carriage_return: true, ..open_line(options, p).0 },
            open_line(options, p).1 + options.rendered(rest.subrange(0, offset)),
        ),
        offset < rest.len() && rest[offset] != CARRIAGE_RETURN ==> run(
            options,
            p,
            rest.subrange(0, offset + 1),
        ) == (
            Position { at_line_start: true, ..open_line(options, p).0 },
            open_line(options, p).1 + options.rendered(rest.subrange(0, offset))
                + options.end_of_line_bytes(),
        ),
{
    reveal_with_fuel(run, 2);
    let body = rest.subrange(0, offset);
    let (q, out) = open_line(options, p);
    assert forall|i: int| 0 <= i < body.len() implies !crate::render::is_stop(
        #[trigger] body[i],
        !options.show_nonprinting,
    ) by {
        assert(body[i] == rest[i]);
    }
    if offset > 0 {
        lemma_run_body(options, p, body);
    } else {
        assert(options.rendered(body) =~= Seq::<u8>::empty()) by {
            reveal_with_fuel(crate::render::escaped, 1);
            reveal_with_fuel(crate::render::marked, 1);
        }
        assert(out + options.rendered(body) =~= out);
    }
    if offset == rest.len() {
        assert(body =~= rest);
    } else {
        let all = rest.subrange(0, offset + 1);
        assert(all.drop_last() =~= body);
        assert(all.last() == rest[offset]);
        let mid = run(options, p, body);
        assert(open_line(options, q) == (q, Seq::<u8>::empty()));
        if offset > 0 {
            assert(mid == (q, out + options.rendered(body)));
            if rest[offset] == CARRIAGE_RETURN {
                assert(step(options, q, rest[offset]) == (
                    Position { skipped_carriage_return: true, ..q },
                    Seq::<u8>::empty(),
                ));
                assert(run(options, p, all).1 =~= out + options.rendered(body));
            } else {
                assert(deferred_out(options, q, true) =~= Seq::<u8>::empty());
                assert(step(options, q, rest[offset]).1 =~= options.end_of_line_bytes());
                assert(run(options, p, all).1 =~= out + options.rendered(body)
                    + options.end_of_line_bytes());
            }
        } else {
            assert(mid == (p, Seq::<u8>::empty()));
            assert(rest[0] == CARRIAGE_RETURN && !options.show_nonprinting);
            assert(run(options, p, all).1 =~= out + options.rendered(body));
        }
    }
}

/// The same, as it stands after the body bytes of the stretch were
/// written behind `before`: what the output holds, or will hold once the
/// line end is written, is `before` and the output of the run over the
/// stretch.
pub proof fn lemma_stretch_written(
    options: Options,
    p: Position,
    rest: Seq<u8>,
    offset: int,
    before: Seq<u8>,
    written: Seq<u8>,
)
    requires
        crate::render::is_body_length(rest, offset, !options.show_nonprinting),
        rest.len() > 0,
        rest[0] != NEWLINE,
        written == before + open_line(options, p).1 + options.rendered(rest.subrange(0, offset)),
    ensures
        offset == rest.len() ==> run(options, p, rest) == (
            open_line(options, p).0,
            run(options, p, rest).1,
        ) && written == before + run(options, p, rest).1,
        offset < rest.len() && rest[offset] == CARRIAGE_RETURN ==> run(
            options,
            p,
            rest.subrange(0, offset + 1),
        ).0 == (Position { skipped_carriage_return: true, ..open_line(options, p).0 })
            && written == before + run(options, p, rest.subrange(0, offset + 1)).1,
        offset < rest.len() && rest[offset] != CARRIAGE_RETURN ==> run(
            options,
            p,
            rest.subrange(0, offset + 1),
        ).0 == (Position { at_line_start: true, ..open_line(options, p).0 }) && written
            + options.end_of_line_bytes() == before + run(
            options,
            p,
            rest.subrange(0, offset + 1),
        ).1,
{
    lemma_run_stretch(options, p, rest, offset);
    let opened = open_line(options, p).1;
    let body = options.rendered(rest.subrange(0, offset));
    assert(before + opened + body =~= before + (opened + body));
    if offset == rest.len() {
        assert(rest.subrange(0, offset) =~= rest);
    } else {
        assert(before + opened + body + options.end_of_line_bytes() =~= before + (opened + body
            + options.end_of_line_bytes()));
    }
}

/// Chunk boundaries are invisible: running over `a` and then, from the
/// state that this leaves, over `b` ends in the same state and writes the
/// same bytes as running over `a + b` in one go.
pub proof fn lemma_run_split(options: Options, p: Position, a: Seq<u8>, b: Seq<u8>)
    ensures
        run(options, p, a + b).0 == run(options, run(options, p, a).0, b).0,
        run(options, p, a + b).1 == run(options, p, a).1 + run(
            options,
            run(options, p, a).0,
            b,
        ).1,
    decreases b.len(),
{
    reveal_with_fuel(run, 2);
    if b.len() == 0 {
        assert(a + b =~= a);
        assert(run(options, p, a).1 + Seq::<u8>::empty() =~= run(options, p, a).1);
    } else {
        lemma_run_split(options, p, a, b.drop_last());
        assert((a + b).drop_last() =~= a + b.drop_last());
        assert((a + b).last() == b.last());
        let q = run(options, p, a).0;
        let mid = run(options, q, b.drop_last());
        let last = step(options, mid.0, b.last());
        assert(run(options, p, a + b).1 =~= run(options, p, a).1 + (mid.1 + last.1));
    }
}

/// However the input is cut into chunks, taking the chunks in one after
/// the other ends in the same state and writes the same bytes as one run
/// over the whole input.
pub proof fn lemma_chunking_is_invisible(options: Options, p: Position, chunks: Seq<Seq<u8>>)
    ensures
        run_chunks(options, p, chunks) == run(options, p, joined(chunks)),
    decreases chunks.len(),
{
    if chunks.len() == 0 {
        reveal(run);
    } else {
        lemma_chunking_is_invisible(options, p, chunks.drop_last());
        lemma_run_split(options, p, joined(chunks.drop_last()), chunks.last());
    }
}

/// With no option set, the output is the input whatever the chunks are:
/// the annotated pass over the chunks, with the carriage return that is
/// still deferred at the end, writes the chunks joined.
pub proof fn lemma_plain_chunks_copy_input(options: Options, chunks: Seq<Seq<u8>>)
    requires
        options.is_plain(),
    ensures
        run_chunks(options, Position::start(), chunks).1 + deferred_out(
            options,
            run_chunks(options, Position::start(), chunks).0,
            false,
        ) == joined(chunks),
        cat_output(options, joined(chunks)) == joined(chunks),
{
    lemma_chunking_is_invisible(options, Position::start(), chunks);
    lemma_plain_annotated_is_input(options, joined(chunks));
}

/// The first chunks joined are no longer than all of them joined.
pub proof fn lemma_joined_take_len(chunks: Seq<Seq<u8>>, k: int)
    requires
        0 <= k <= chunks.len(),
    ensures
        joined(chunks.take(k)).len() <= joined(chunks).len(),
    decreases chunks.len(),
{
    if k == chunks.len() {
        assert(chunks.take(k) =~= chunks);
    } else {
        lemma_joined_take_len(chunks.drop_last(), k);
        assert(chunks.drop_last().take(k) =~= chunks.take(k));
    }
}

/// What holds of the state after any run: the count of numbered lines
/// never falls and grows by at most one for each byte; a carriage return is
/// never deferred at a line start once a byte was taken in; and where bytes
/// are escaped, no carriage return is deferred unless one was before.
pub proof fn lemma_run_state(options: Options, p: Position, s: Seq<u8>)
    ensures
        p.line_number <= run(options, p, s).0.line_number <= p.line_number + s.len(),
        s.len() > 0 ==> !(run(options, p, s).0.at_line_start && run(
            options,
            p,
            s,
        ).0.skipped_carriage_return),
        options.show_nonprinting && !p.skipped_carriage_return ==> !run(
            options,
            p,
            s,
        ).0.skipped_carriage_return,
    decreases s.len(),
{
    reveal(run);
    if s.len() > 0 {
        lemma_run_state(options, p, s.drop_last());
    }
}

/// With no option set, the annotated pass writes the input unchanged: from
/// any state, what a run writes and still defers is what was deferred
/// before it and the input.
#[verifier::rlimit(40)]
pub proof fn lemma_plain_run(options: Options, p: Position, s: Seq<u8>)
    requires
        options.is_plain(),
    ensures
        run(options, p, s).1 + deferred_out(options, run(options, p, s).0, false)
            == deferred_out(options, p, false) + s,
    decreases s.len(),
{
    reveal(run);
    if s.len() == 0 {
        assert(Seq::<u8>::empty() + deferred_out(options, p, false) =~= deferred_out(
            options,
            p,
            false,
        ) + s);
    } else {
        let init = s.drop_last();
        let b = s.last();
        lemma_plain_run(options, p, init);
        let (q, out) = run(options, p, init);
        let (r, more) = step(options, q, b);
        assert(more + deferred_out(options, r, false) =~= deferred_out(options, q, false)
            + seq![b]);
        assert(s =~= init + seq![b]);
        assert((out + more) + deferred_out(options, r, false) =~= (out + deferred_out(
            options,
            q,
            false,
        )) + seq![b]);
        assert((deferred_out(options, p, false) + init) + seq![b] =~= deferred_out(
            options,
            p,
            false,
        ) + s);
    }
}

/// The fast path and the annotated pass agree: with no option set, the
/// annotated output of any input is the input itself.
pub proof fn lemma_plain_annotated_is_input(options: Options, s: Seq<u8>)
    requires
        options.is_plain(),
    ensures
        annotated(options, s) == s,
        cat_output(options, s) == s,
{
    reveal_with_fuel(run, 2);
    lemma_plain_run(options, Position::start(), s);
    assert(deferred_out(options, Position::start(), false) + s =~= s);
}

/// Write what a newline at the cursor calls for, and move the state past
/// it: a deferred carriage return, the number of a blank line where all
/// lines are numbered, and the line end; nothing at all for a blank line
/// that is squeezed away.
pub fn write_new_line(output: &mut Vec<u8>, options: &Options, state: &mut State) -> (r:
    CatResult<()>)
    requires
        old(state).line_number < usize::MAX,
    ensures
        r is Ok,
        final(state)@ == step_newline(*options, old(state)@).0,
        final(output)@ == old(output)@ + step_newline(*options, old(state)@).1,
{
    let ghost before = output@;
    let fresh = state.at_line_start && !state.skipped_carriage_return;
    if fresh && options.squeeze_blank && state.one_blank_kept {
        assert(output@ =~= before + Seq::<u8>::empty());
        return Ok(());
    }
    if state.skipped_carriage_return {
        if options.show_ends {
            output.push(0x5e);
            output.push(0x4d);
        } else {
            output.push(CARRIAGE_RETURN);
        }
        state.skipped_carriage_return = false;
    }
    assert(output@ =~= before + deferred_out(*options, old(state)@, true));
    state.one_blank_kept = fresh;
    if fresh && options.number == NumberingMode::All {
        write_line_number(output, state.line_number + 1);
        state.line_number += 1;
    }
    state.at_line_start = true;
    let r = write_end_of_line(output, options.end_of_line().as_bytes());
    assert(output@ =~= before + step_newline(*options, old(state)@).1);
    r
}

/// Write what stands before the first byte of a stretch of body bytes, and
/// move the state into the line: a deferred carriage return, and the line
/// number where the line is fresh and lines are numbered.
pub fn write_line_start(output: &mut Vec<u8>, options: &Options, state: &mut State)
    requires
        old(state).line_number < usize::MAX,
    ensures
        final(state)@ == open_line(*options, old(state)@).0,
        final(output)@ == old(output)@ + open_line(*options, old(state)@).1,
{
    let ghost before = output@;
    let fresh = state.at_line_start && !state.skipped_carriage_return;
    write_skipped_carriage_return(output, options, state);
    state.one_blank_kept = false;
    if fresh && options.number != NumberingMode::Off {
        write_line_number(output, state.line_number + 1);
        state.line_number += 1;
    }
    state.at_line_start = false;
    assert(output@ =~= before + open_line(*options, old(state)@).1);
}

/// Write the carriage return that is still deferred, if there is one, as it
/// stands before a byte that is no newline and at the end of the input.
pub fn write_skipped_carriage_return(output: &mut Vec<u8>, options: &Options, state: &mut State)
    ensures
        final(state)@ == (Position { skipped_carriage_return: false, ..old(state)@ }),
        final(output)@ == old(output)@ + deferred_out(*options, old(state)@, false),
{
    let ghost before = output@;
    if state.skipped_carriage_return {
        if options.show_nonprinting {
            output.push(0x5e);
            output.push(0x4d);
        } else {
            output.push(CARRIAGE_RETURN);
        }
        state.skipped_carriage_return = false;
    }
    assert(output@ =~= before + deferred_out(*options, old(state)@, false));
}

/// Take in the stretch of a line that starts at `pos`, which holds no
/// newline: what stands before its first byte, its body bytes as far as
/// they go, and the byte that stopped the scan, if the chunk holds it.
/// Returns the number of bytes taken from `input`.
#[verifier::rlimit(40)]
pub fn write_stretch(
    input: &[u8],
    pos: usize,
    output: &mut Vec<u8>,
    options: &Options,
    state: &mut State,
) -> (taken: usize)
    requires
        pos < input@.len(),
        input@[pos as int] != NEWLINE,
        old(state).line_number < usize::MAX,
    ensures
        1 <= taken <= input@.len() - pos,
        final(state).line_number <= old(state).line_number + 1,
        final(state)@ == run(*options, old(state)@, input@.subrange(pos as int, pos + taken)).0,
        final(output)@ == old(output)@ + run(
            *options,
            old(state)@,
            input@.subrange(pos as int, pos + taken),
        ).1,
{
    let ghost before = output@;
    let n: usize = input.len();
    write_line_start(output, options, state);
    let offset: usize = write_end(output, slice_subrange(input, pos, n), options);
    let ghost rest = input@.subrange(pos as int, n as int);
    let ghost written = output@;
    proof {
        assert(rest[0] == input@[pos as int]);
        lemma_stretch_written(*options, old(state)@, rest, offset as int, before, written);
    }
    if offset == n - pos {
        offset
    } else {
        proof {
            assert(rest[offset as int] == input@[pos + offset]);
            assert(rest.subrange(0, offset + 1) =~= input@.subrange(
                pos as int,
                pos + offset + 1,
            ));
        }
        if input[pos + offset] == CARRIAGE_RETURN {
            state.skipped_carriage_return = true;
        } else {
            let _ = write_end_of_line(output, options.end_of_line().as_bytes());
            state.at_line_start = true;
        }
        offset + 1
    }
}

/// Copy one chunk of input to the output unchanged.
pub fn cat_fast(input: &[u8], output: &mut Vec<u8>, _options: &Options) -> (r: CatResult<()>)
    ensures
        r is Ok,
        final(output)@ == old(output)@ + input@,
{
    append(output, input);
    Ok(())
}

/// Run the annotated pass over one chunk of input, from `state`. The chunk
/// may end anywhere: a line left open, or a carriage return left deferred,
/// is carried by `state` into the next chunk.
#[verifier::rlimit(40)]
pub fn cat_lines(input: &[u8], output: &mut Vec<u8>, options: &Options, state: &mut State) -> (r:
    CatResult<()>)
    requires
        old(state).line_number + input@.len() <= usize::MAX,
    ensures
        r is Ok,
        final(state)@ == run(*options, old(state)@, input@).0,
        final(output)@ == old(output)@ + run(*options, old(state)@, input@).1,
{
    let ghost before = output@;
    let ghost origin = state@;
    let n: usize = input.len();
    let mut pos: usize = 0;
    assert(output@ =~= before + run(*options, origin, input@.subrange(0, 0)).1) by {
        reveal_with_fuel(run, 1);
    }
    assert(state@ == run(*options, origin, input@.subrange(0, 0)).0) by {
        reveal_with_fuel(run, 1);
    }
    while pos < n
        invariant
            n == input@.len(),
            pos <= n,
            origin.line_number + n <= usize::MAX,
            state.line_number <= origin.line_number + pos,
            state@ == run(*options, origin, input@.subrange(0, pos as int)).0,
            output@ == before + run(*options, origin, input@.subrange(0, pos as int)).1,
        decreases n - pos,
    {
        let ghost done = input@.subrange(0, pos as int);
        let ghost here = state@;
        let ghost written = output@;
        if input[pos] == NEWLINE {
            let _ = write_new_line(output, options, state);
            pos += 1;
            proof {
                reveal_with_fuel(run, 2);
                let now = input@.subrange(0, pos as int);
                assert(now.drop_last() =~= done);
                assert(output@ =~= before + run(*options, origin, now).1);
            }
        } else {
            let taken: usize = write_stretch(input, pos, output, options, state);
            proof {
                let piece = input@.subrange(pos as int, pos + taken);
                lemma_run_split(*options, origin, done, piece);
                assert(done + piece =~= input@.subrange(0, pos + taken));
            }
            pos += taken;
            assert(output@ =~= before + run(*options, origin, input@.subrange(0, pos as int)).1);
        }
    }
    assert(input@.subrange(0, pos as int) =~= input@);
    Ok(())
}

/// Copy `input` to `output` as `options` ask: unchanged where no option is
/// set, else annotated from the start state, with a carriage return that is
/// still deferred at the end written out.
pub fn cat(input: &[u8], output: &mut Vec<u8>, options: &Options) -> (r: CatResult<()>)
    ensures
        r is Ok,
        final(output)@ == old(output)@ + cat_output(*options, input@),
        options.is_plain() ==> final(output)@ == old(output)@ + input@,
{
    let ghost before = output@;
    if options.can_write_fast() {
        cat_fast(input, output, options)
    } else {
        let mut state = State::new();
        assert(input@.len() <= usize::MAX) by {
            vstd::slice::axiom_spec_len(input);
        }
        let r = cat_lines(input, output, options, &mut state);
        write_skipped_carriage_return(output, options, &mut state);
        assert(output@ =~= before + cat_output(*options, input@));
        r
    }
}

/// Copy the sources to `output` as one run, in their order: the state of
/// the annotated pass goes on from each source to the next, so the output
/// is that of the sources joined into one input.
#[verifier::rlimit(40)]
pub fn cat_sources(sources: &[Vec<u8>], output: &mut Vec<u8>, options: &Options) -> (r:
    CatResult<()>)
    requires
        joined(contents(sources)).len() <= usize::MAX,
    ensures
        r is Ok,
        final(output)@ == old(output)@ + cat_output(*options, joined(contents(sources))),
{
    let ghost before = output@;
    let ghost all = contents(sources);
    let fast = options.can_write_fast();
    let mut state = State::new();
    let mut i: usize = 0;
    proof {
        reveal(run);
        assert(all.take(0) =~= Seq::<Seq<u8>>::empty());
        assert(output@ =~= before + joined(all.take(0)));
        assert(output@ =~= before + run_chunks(*options, Position::start(), all.take(0)).1);
    }
    while i < sources.len()
        invariant
            i <= sources@.len(),
            all == contents(sources),
            joined(all).len() <= usize::MAX,
            fast == options.is_plain(),
            state.line_number <= joined(all.take(i as int)).len(),
            fast ==> output@ == before + joined(all.take(i as int)),
            !fast ==> state@ == run_chunks(*options, Position::start(), all.take(i as int)).0,
            !fast ==> output@ == before + run_chunks(
                *options,
                Position::start(),
                all.take(i as int),
            ).1,
        decreases sources@.len() - i,
    {
        let ghost here = state@;
        proof {
            lemma_joined_take_len(all, i + 1);
            assert(all.take(i + 1).drop_last() =~= all.take(i as int));
            assert(all.take(i + 1).last() == sources@[i as int]@);
            lemma_run_state(*options, here, sources@[i as int]@);
        }
        if fast {
            let _ = cat_fast(sources[i].as_slice(), output, options);
        } else {
            let _ = cat_lines(sources[i].as_slice(), output, options, &mut state);
        }
        i += 1;
        proof {
            assert(fast ==> output@ =~= before + joined(all.take(i as int)));
            assert(!fast ==> output@ =~= before + run_chunks(
                *options,
                Position::start(),
                all.take(i as int),
            ).1);
        }
    }
    proof {
        assert(all.take(i as int) =~= all);
        lemma_chunking_is_invisible(*options, Position::start(), all);
    }
    if !fast {
        write_skipped_carriage_return(output, options, &mut state);
    }
    assert(output@ =~= before + cat_output(*options, joined(all)));
    Ok(())
}

} // verus!
