use vstd::prelude::*;
use crate::screen::NEWLINE;
use crate::script::{laid_out, scan_start, start_offset, Reply, Session, TickStatus};

verus! {

/// Enter alone is a line of input, the empty one: a session that waits for input and has
/// nothing but a newline behind its marker hands over the empty line, and goes on once
/// the line has been taken.
pub proof fn law_empty_line_is_a_line(session: Session)
    requires
        session.wf(),
        session.status == TickStatus::AwaitInput,
        session.marker == Some(session.output.len() - 1),
        session.output.len() > 0,
        session.output.last() == NEWLINE,
    ensures
        session.wants_input(),
        session.line() == Seq::<u8>::empty(),
        session.tick(Reply::Accepted).status == TickStatus::Continuing,
        session.tick(Reply::Accepted).marker == None::<int>,
        !session.did_work(Reply::Accepted),
{
    assert(session.pending() =~= Seq::<u8>::empty());
}

/// A complete line of input that the interpreter takes ends the wait: the session goes on
/// and has no marker any more.
pub proof fn law_taken_line_ends_the_wait(session: Session)
    requires
        session.wf(),
        session.wants_input(),
    ensures
        session.tick(Reply::Accepted).status == TickStatus::Continuing,
        session.tick(Reply::Accepted).marker == None::<int>,
        session.tick(Reply::Accepted).output == session.output,
{
}

/// The cell behind byte `b` when it is written at cell `cursor`: a newline byte goes on to
/// the start of the next row, any other byte to the next cell.
pub open spec fn advance(cursor: int, b: u8, width: int) -> int {
    if b == NEWLINE {
        cursor + (width - cursor % width)
    } else {
        cursor + 1
    }
}

/// The cell behind `bytes` when they are written from cell `cursor` on.
pub open spec fn cursor_after(cursor: int, bytes: Seq<u8>, width: int) -> int
    decreases bytes.len(),
{
    if bytes.len() == 0 {
        cursor
    } else {
        advance(cursor_after(cursor, bytes.drop_last(), width), bytes.last(), width)
    }
}

/// The laid out bytes end at the cell that writing from the first cell ends at.
pub proof fn lemma_laid_out_len(bytes: Seq<u8>, width: int)
    requires
        1 <= width,
    ensures
        laid_out(bytes, width).len() == cursor_after(0, bytes, width),
    decreases bytes.len(),
{
    if bytes.len() > 0 {
        lemma_laid_out_len(bytes.drop_last(), width);
        let before = laid_out(bytes.drop_last(), width);
        vstd::arithmetic::div_mod::lemma_mod_bound(before.len() as int, width);
    }
}

/// Writing a byte and then more bytes is writing them all.
pub proof fn lemma_cursor_after_first(cursor: int, b: u8, rest: Seq<u8>, width: int)
    ensures
        cursor_after(cursor, seq![b] + rest, width) == cursor_after(
            advance(cursor, b, width),
            rest,
            width,
        ),
    decreases rest.len(),
{
    let all = seq![b] + rest;
    if rest.len() == 0 {
        assert(all.drop_last() =~= Seq::<u8>::empty());
        assert(all.last() == b);
        assert(cursor_after(cursor, all.drop_last(), width) == cursor);
    } else {
        lemma_cursor_after_first(cursor, b, rest.drop_last(), width);
        assert(all.drop_last() =~= seq![b] + rest.drop_last());
        assert(all.last() == rest.last());
    }
}

/// Writing from one row further down ends one row further down.
pub proof fn lemma_cursor_after_row(cursor: int, bytes: Seq<u8>, width: int)
    requires
        1 <= width,
    ensures
        cursor_after(cursor + width, bytes, width) == cursor_after(cursor, bytes, width) + width,
    decreases bytes.len(),
{
    if bytes.len() > 0 {
        lemma_cursor_after_row(cursor, bytes.drop_last(), width);
        let at = cursor_after(cursor, bytes.drop_last(), width);
        vstd::arithmetic::div_mod::lemma_mod_add_multiples_vanish(at, width);
        assert((at + width) % width == at % width) by {
            assert(at + width == width + at);
        }
    }
}

/// Writing from a later cell does not end at an earlier cell.
pub proof fn lemma_cursor_after_ordered(from: int, later: int, bytes: Seq<u8>, width: int)
    requires
        1 <= width,
        from <= later,
    ensures
        cursor_after(from, bytes, width) <= cursor_after(later, bytes, width),
    decreases bytes.len(),
{
    if bytes.len() > 0 {
        lemma_cursor_after_ordered(from, later, bytes.drop_last(), width);
        let x = cursor_after(from, bytes.drop_last(), width);
        let y = cursor_after(later, bytes.drop_last(), width);
        if bytes.last() == NEWLINE {
            lemma_row_end_ordered(x, y, width);
        }
    }
}

/// The row of a later cell does not end before the row of an earlier cell.
pub proof fn lemma_row_end_ordered(x: int, y: int, width: int)
    requires
        1 <= width,
        x <= y,
    ensures
        x + (width - x % width) <= y + (width - y % width),
{
    vstd::arithmetic::div_mod::lemma_fundamental_div_mod(x, width);
    vstd::arithmetic::div_mod::lemma_fundamental_div_mod(y, width);
    vstd::arithmetic::div_mod::lemma_div_is_ordered(x, y, width);
    let qx = x / width;
    let qy = y / width;
    assert(width * qx <= width * qy) by (nonlinear_arith)
        requires
            qx <= qy,
            1 <= width,
    ;
}

/// What the backward scan keeps true: written with as many cells left free at the start
/// as the current row still has room for, the bytes from `i` on end within the rows
/// counted so far and one more.
pub open spec fn within_budget(bytes: Seq<u8>, width: int, i: int, last: int, count: int) -> bool {
    &&& 0 <= last - i < width
    &&& 0 <= count
    &&& cursor_after(width - 1 - (last - i), bytes.skip(i), width) <= count * width + width - 1
}

/// The scan keeps within the budget, so what it decides to show fits the pane with a cell
/// to spare.
pub proof fn lemma_scan_fits(
    bytes: Seq<u8>,
    width: int,
    height: int,
    i: int,
    last: int,
    count: int,
)
    requires
        1 <= width,
        1 <= height,
        0 <= i <= bytes.len(),
        count < height,
        within_budget(bytes, width, i, last, count),
    ensures
        0 <= scan_start(bytes, width, height, i, last, count) <= i,
        cursor_after(
            0,
            bytes.skip(scan_start(bytes, width, height, i, last, count)),
            width,
        ) < width * height,
    decreases i,
{
    let d = last - i;
    let here = bytes.skip(i);
    assert(cursor_after(0, here, width) < width * height) by {
        lemma_cursor_after_ordered(0, width - 1 - d, here, width);
        assert(count * width + width - 1 < width * height) by (nonlinear_arith)
            requires
                0 <= count < height,
                1 <= width,
        ;
    }
    if i > 0 {
        let at = i - 1;
        let b = bytes[at];
        let wrapped = last - at >= width;
        let count1 = if wrapped {
            count + 1
        } else {
            count
        };
        let last1 = if wrapped {
            at
        } else {
            last
        };
        let newline = b == NEWLINE;
        let count2 = if newline {
            count1 + 1
        } else {
            count1
        };
        let last2 = if newline {
            at
        } else {
            last1
        };
        if count2 < height {
            let there = bytes.skip(at);
            assert(there =~= seq![b] + here);
            let start = width - 1 - (last2 - at);
            lemma_cursor_after_first(start, b, here, width);
            assert(count2 * width == count * width + (count2 - count) * width) by (nonlinear_arith);
            if newline {
                // the newline ends the row, whatever was free in it
                assert(last2 == at && start == width - 1);
                assert((width - 1) % width == width - 1) by {
                    vstd::arithmetic::div_mod::lemma_small_mod((width - 1) as nat, width as nat);
                }
                assert(advance(start, b, width) == width);
                lemma_cursor_after_row(0, here, width);
                lemma_cursor_after_ordered(0, width - 1 - d, here, width);
                assert(count2 >= count + 1);
                assert((count2 - count) * width >= width) by (nonlinear_arith)
                    requires
                        count2 - count >= 1,
                        1 <= width,
                ;
            } else if wrapped {
                // the byte fills its row: what follows starts a row
                assert(d == width - 1 && start == width - 1);
                assert(advance(start, b, width) == width);
                lemma_cursor_after_row(0, here, width);
                assert((count2 - count) * width == width) by (nonlinear_arith)
                    requires
                        count2 - count == 1,
                ;
            } else {
                // the byte takes one of the cells left free
                assert(advance(start, b, width) == width - 1 - d);
                assert((count2 - count) * width == 0) by (nonlinear_arith)
                    requires
                        count2 - count == 0,
                ;
            }
            lemma_scan_fits(bytes, width, height, at, last2, count2);
        }
    }
}

/// What a pane shows of a transcript always fits: behind the bytes from the start that
/// the backward scan finds, laid out in the pane, a cell of the pane is left for the
/// cursor.
pub proof fn law_transcript_fits(bytes: Seq<u8>, width: int, height: int)
    requires
        1 <= width,
        1 <= height,
    ensures
        0 <= start_offset(bytes, width, height) <= bytes.len(),
        laid_out(bytes.skip(start_offset(bytes, width, height)), width).len() < width * height,
{
    let len = bytes.len() as int;
    assert(bytes.skip(len) =~= Seq::<u8>::empty());
    assert(0 * width + width - 1 == width - 1) by (nonlinear_arith);
    lemma_scan_fits(bytes, width, height, len, len, 0);
    lemma_laid_out_len(bytes.skip(start_offset(bytes, width, height)), width);
}

} // verus!
