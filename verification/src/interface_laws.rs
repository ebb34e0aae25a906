use vstd::prelude::*;
use crate::interface::{Shell, SCAN_SLOTS, SLOTS};
use crate::script::{Reply, Session, TickStatus};

verus! {

/// The session after it has taken a tick for each of `replies`, in order.
pub open spec fn run(session: Session, replies: Seq<Reply>) -> Session
    decreases replies.len(),
{
    if replies.len() == 0 {
        session
    } else {
        run(session, replies.drop_last()).tick(replies.last())
    }
}

/// The reply reports a step of the script that leaves it in `status`.
pub open spec fn steps_to(reply: Reply, status: TickStatus) -> bool {
    reply matches Reply::Stepped { status: s, .. } && s == status
}

/// A finished session stays as it is: no reply changes it or counts as work, and it asks
/// for nothing.
pub proof fn law_finished_is_final(session: Session, reply: Reply)
    requires
        session.status == TickStatus::Finished,
    ensures
        session.tick(reply) == session,
        !session.did_work(reply),
        !session.wants_step(),
        !session.wants_input(),
{
}

/// A script that runs for `replies.len()` steps without asking for input, and reports
/// with the last of them that it has finished, does work on each of these ticks and on
/// none after them.
pub proof fn law_script_runs_then_stops(replies: Seq<Reply>, later: Reply)
    requires
        replies.len() >= 1,
        forall|i: int|
            0 <= i < replies.len() - 1 ==> steps_to(#[trigger] replies[i], TickStatus::Continuing),
        steps_to(replies.last(), TickStatus::Finished),
    ensures
        forall|i: int|
            0 <= i < replies.len() ==> run(Session::fresh(), replies.take(i)).did_work(
                #[trigger] replies[i],
            ),
        run(Session::fresh(), replies).status == TickStatus::Finished,
        !run(Session::fresh(), replies).did_work(later),
        run(Session::fresh(), replies).tick(later) == run(Session::fresh(), replies),
{
    assert forall|i: int| 0 <= i < replies.len() implies run(
        Session::fresh(),
        replies.take(i),
    ).did_work(#[trigger] replies[i]) by {
        lemma_keeps_running(replies, i);
    }
    lemma_keeps_running(replies, replies.len() - 1);
    assert(replies.take(replies.len() - 1) =~= replies.drop_last());
}

/// While every reply so far reported a script that goes on, the session can run a step.
pub proof fn lemma_keeps_running(replies: Seq<Reply>, n: int)
    requires
        0 <= n < replies.len(),
        forall|i: int| 0 <= i < n ==> steps_to(#[trigger] replies[i], TickStatus::Continuing),
    ensures
        run(Session::fresh(), replies.take(n)).wants_step(),
    decreases n,
{
    if n > 0 {
        lemma_keeps_running(replies, n - 1);
        assert(replies.take(n).drop_last() =~= replies.take(n - 1));
        assert(replies.take(n).last() == replies[n - 1]);
        assert(steps_to(replies[n - 1], TickStatus::Continuing));
    }
}

/// The scan passes over a slot whose script has finished: no tick asks about the slot,
/// counts for it or changes its session.
pub proof fn law_finished_is_skipped(shell: Shell, slot: int, reply: Reply)
    requires
        shell.wf(),
        0 <= slot < SLOTS,
        shell.session(slot) matches Some(session) && session.status == TickStatus::Finished,
    ensures
        shell.tick().1 != Some(slot),
        shell.tick().0.ticks[slot] == shell.ticks[slot],
        shell.tick().0.session(slot) == shell.session(slot),
        shell.resume(reply).1 != Some(slot),
        shell.resume(reply).0.ticks[slot] == shell.ticks[slot],
        shell.resume(reply).0.session(slot) == shell.session(slot),
{
    let begun = Shell { scan_left: SCAN_SLOTS as int, ..shell };
    lemma_scan_skips(begun, slot);
    let answered = shell.answer(reply);
    lemma_scan_skips(answered, slot);
}

/// A scan changes neither the modes nor the counters, and stops only at a slot whose
/// session needs its interpreter.
pub proof fn lemma_scan_skips(shell: Shell, slot: int)
    requires
        0 <= shell.last_ticked < SLOTS,
        0 <= slot < SLOTS,
    ensures
        shell.scan().0.modes == shell.modes,
        shell.scan().0.ticks == shell.ticks,
        shell.scan().0.active == shell.active,
        shell.scan().1 matches Some(found) ==> 0 <= found < SLOTS && shell.asks(found)
            && shell.scan().0.last_ticked == found,
        !shell.asks(slot) ==> shell.scan().1 != Some(slot),
    decreases shell.scan_left,
{
    if shell.scan_left > 0 {
        let next = (shell.last_ticked + 1) % (SLOTS as int);
        let moved = Shell { last_ticked: next, scan_left: shell.scan_left - 1, ..shell };
        if !moved.asks(next) {
            lemma_scan_skips(moved, slot);
        }
    }
}

/// An overall tick looks at every slot, the one looked at last included: where any slot's
/// session needs its interpreter, the tick asks for one; and a session that is alone in
/// needing it is asked about on every tick, wherever the scan stood.
pub proof fn law_scan_reaches_every_slot(shell: Shell, slot: int)
    requires
        shell.wf(),
        0 <= slot < SLOTS,
        shell.asks(slot),
    ensures
        shell.tick().1 is Some,
        (forall|c: int| 0 <= c < SLOTS && c != slot ==> !shell.asks(c)) ==> shell.tick().1
            == Some(slot),
{
    reveal_with_fuel(Shell::scan, 5);
    let begun = Shell { scan_left: SCAN_SLOTS as int, ..shell };
    let s1 = (shell.last_ticked + 1) % 4;
    let s2 = (s1 + 1) % 4;
    let s3 = (s2 + 1) % 4;
    let s4 = (s3 + 1) % 4;
    assert(s4 == shell.last_ticked);
    assert(slot == s1 || slot == s2 || slot == s3 || slot == s4);
    let m1 = Shell { last_ticked: s1, scan_left: 3, ..begun };
    let m2 = Shell { last_ticked: s2, scan_left: 2, ..begun };
    let m3 = Shell { last_ticked: s3, scan_left: 1, ..begun };
    let m4 = Shell { last_ticked: s4, scan_left: 0, ..begun };
    assert(m1.asks(s1) == shell.asks(s1));
    assert(m2.asks(s2) == shell.asks(s2));
    assert(m3.asks(s3) == shell.asks(s3));
    assert(m4.asks(s4) == shell.asks(s4));
}

/// Two script sessions that can always run a step take turns: where two slots hold such
/// sessions and no other slot's session needs its interpreter, two overall ticks in a row
/// advance one of the two each, so that the counter of each goes up by exactly one.
pub proof fn law_round_robin(shell: Shell, a: int, b: int, first: Reply, second: Reply)
    requires
        shell.wf(),
        0 <= a < SLOTS,
        0 <= b < SLOTS,
        a != b,
        shell.runnable(a),
        shell.runnable(b),
        forall|c: int| 0 <= c < SLOTS && c != a && c != b ==> !shell.asks(c),
        steps_to(first, TickStatus::Continuing),
        steps_to(second, TickStatus::Continuing),
    ensures
        ({
            let asked = shell.tick();
            let after_first = asked.0.resume(first);
            let asked_again = after_first.0.drawn().tick();
            let after_second = asked_again.0.resume(second);
            &&& asked.1 matches Some(x)
            &&& asked_again.1 matches Some(y)
            &&& (x == a && y == b) || (x == b && y == a)
            &&& after_first.1 is None
            &&& after_second.1 is None
            &&& after_second.0.ticks[a] == shell.ticks[a] + 1
            &&& after_second.0.ticks[b] == shell.ticks[b] + 1
            &&& forall|c: int|
                0 <= c < SLOTS && c != a && c != b ==> after_second.0.ticks[c] == shell.ticks[c]
        }),
{
    let begun = Shell { scan_left: SCAN_SLOTS as int, ..shell };
    assert forall|c: int| 0 <= c < SLOTS && c != a && c != b implies !begun.asks(c) by {
        assert(!shell.asks(c));
    }
    lemma_scan_finds(begun, a, b);
    let asked = shell.tick();
    let x = asked.1->0;
    let after_first = asked.0.resume(first);
    lemma_step_ends_tick(asked.0, first);
    let drawn = after_first.0.drawn();
    let other = if x == a {
        b
    } else {
        a
    };
    assert(drawn.runnable(a) && drawn.runnable(b));
    assert forall|c: int| 0 <= c < SLOTS && c != a && c != b implies !drawn.asks(c) by {
        assert(!shell.asks(c));
    }
    let begun_again = Shell { scan_left: SCAN_SLOTS as int, ..drawn };
    assert forall|c: int| 0 <= c < SLOTS && c != a && c != b implies !begun_again.asks(c) by {
        assert(!drawn.asks(c));
    }
    lemma_scan_finds(begun_again, a, b);
    let asked_again = drawn.tick();
    lemma_step_ends_tick(asked_again.0, second);
}

/// A full scan that starts with two runnable slots, and no other slot that asks, stops at
/// one of the two; it stops at the one that was not looked at last, where one of them
/// was.
pub proof fn lemma_scan_finds(shell: Shell, a: int, b: int)
    requires
        shell.modes.len() == SLOTS,
        0 <= shell.last_ticked < SLOTS,
        shell.scan_left == SCAN_SLOTS,
        0 <= a < SLOTS,
        0 <= b < SLOTS,
        a != b,
        shell.runnable(a),
        shell.runnable(b),
        forall|c: int| 0 <= c < SLOTS && c != a && c != b ==> !shell.asks(c),
    ensures
        shell.scan().1 matches Some(x) && (x == a || x == b) && x != shell.last_ticked,
        shell.scan().0.modes == shell.modes,
        shell.scan().0.ticks == shell.ticks,
        shell.scan().0.active == shell.active,
        shell.scan().0.editing_name == shell.editing_name,
        shell.scan().0.name == shell.name,
        shell.scan().0.last_ticked == shell.scan().1->0,
        shell.last_ticked == a ==> shell.scan().1 == Some(b),
        shell.last_ticked == b ==> shell.scan().1 == Some(a),
{
    reveal_with_fuel(Shell::scan, 4);
    let s1 = (shell.last_ticked + 1) % 4;
    let s2 = (s1 + 1) % 4;
    let s3 = (s2 + 1) % 4;
    assert(s1 != shell.last_ticked && s2 != shell.last_ticked && s3 != shell.last_ticked);
    assert(s1 != s2 && s2 != s3 && s1 != s3);
    assert(a == s1 || a == s2 || a == s3 || a == shell.last_ticked);
    assert(b == s1 || b == s2 || b == s3 || b == shell.last_ticked);
    let m1 = Shell { last_ticked: s1, scan_left: 2, ..shell };
    let m2 = Shell { last_ticked: s2, scan_left: 1, ..shell };
    let m3 = Shell { last_ticked: s3, scan_left: 0, ..shell };
    assert(m1.asks(s1) == shell.asks(s1));
    assert(m2.asks(s2) == shell.asks(s2));
    assert(m3.asks(s3) == shell.asks(s3));
    assert(shell.asks(a) && shell.asks(b));
}

/// A reply that reports a step, given for a slot that can run one, counts one tick for
/// the slot, leaves its session able to run where the script goes on, and ends the
/// overall tick.
pub proof fn lemma_step_ends_tick(shell: Shell, reply: Reply)
    requires
        shell.modes.len() == SLOTS,
        shell.ticks.len() == SLOTS,
        0 <= shell.last_ticked < SLOTS,
        shell.runnable(shell.last_ticked),
        reply is Stepped,
    ensures
        shell.resume(reply).1 is None,
        shell.resume(reply).0.ticks == shell.ticks.update(
            shell.last_ticked,
            shell.ticks[shell.last_ticked] + 1,
        ),
        shell.resume(reply).0.last_ticked == shell.last_ticked,
        forall|c: int|
            0 <= c < SLOTS && c != shell.last_ticked ==> shell.resume(reply).0.modes[c]
                == shell.modes[c],
        steps_to(reply, TickStatus::Continuing) ==> shell.resume(reply).0.runnable(
            shell.last_ticked,
        ),
        shell.resume(reply).0.modes.len() == SLOTS,
{
}

} // verus!
