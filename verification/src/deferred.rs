//! Commands that wait until the exchange takes actions again.
use vstd::prelude::*;
use crate::commands::Command;

verus! {

/// How many commands can wait.
pub const MAX_DEFERRED_ACTION_LIMIT_COMMANDS: usize = 1024;

/// How many commands are tried again in one round.
pub const MAX_DEFERRED_ACTION_LIMIT_PER_LOOP: usize = 4;

/// A command that waits.
#[derive(Debug)]
pub struct DeferredActionLimitCommand {
    pub retry_at_ms: i64,
    pub command: Command,
}

/// The command cancels something.
pub open spec fn cancels(command: Command) -> bool {
    command is CancelOrder || command is CancelAll
}

/// The two commands cancel the same.
pub open spec fn cancels_same(left: Command, right: Command) -> bool {
    match (left, right) {
        (Command::CancelOrder(a), Command::CancelOrder(b)) => a.exchange.is_same(&b.exchange)
            && a.client_id@ == b.client_id@,
        (Command::CancelAll(a), Command::CancelAll(b)) => a.exchange.is_same(&b.exchange) && (
        match (a.instrument, b.instrument) {
            (Some(x), Some(y)) => x@ == y@,
            (None, None) => true,
            _ => false,
        }),
        _ => false,
    }
}

/// The place of the first command that cancels the same, or the length.
pub open spec fn first_same(s: Seq<DeferredActionLimitCommand>, command: Command) -> int
    decreases s.len(),
{
    if s.len() == 0 {
        0
    } else if first_same(s.drop_last(), command) < s.len() - 1 {
        first_same(s.drop_last(), command)
    } else if cancels_same(s.last().command, command) {
        s.len() - 1
    } else {
        s.len() as int
    }
}

/// What waits after one more command; `None` where the queue is full. A cancel that waits
/// already is not put there twice: the earlier time counts.
pub open spec fn deferred_after(
    s: Seq<DeferredActionLimitCommand>,
    command: Command,
    retry_at_ms: i64,
) -> Option<Seq<DeferredActionLimitCommand>> {
    let i = first_same(s, command);
    if cancels(command) && i < s.len() {
        Some(
            s.update(
                i,
                DeferredActionLimitCommand {
                    retry_at_ms: if s[i].retry_at_ms <= retry_at_ms {
                        s[i].retry_at_ms
                    } else {
                        retry_at_ms
                    },
                    ..s[i]
                },
            ),
        )
    } else if s.len() >= MAX_DEFERRED_ACTION_LIMIT_COMMANDS {
        None
    } else {
        Some(s.push(DeferredActionLimitCommand { retry_at_ms, command }))
    }
}

/// The command at `i` goes before the one at `j`: cancels first, then the earlier time, then
/// the earlier place.
pub open spec fn goes_before(s: Seq<DeferredActionLimitCommand>, i: int, j: int) -> bool {
    let (a, b) = (s[i], s[j]);
    ||| cancels(a.command) && !cancels(b.command)
    ||| cancels(a.command) == cancels(b.command) && (a.retry_at_ms < b.retry_at_ms || (
    a.retry_at_ms == b.retry_at_ms && i < j))
}

/// The command at `i` is the next to be tried again.
pub open spec fn is_next(s: Seq<DeferredActionLimitCommand>, now: i64, i: int) -> bool {
    &&& 0 <= i < s.len()
    &&& s[i].retry_at_ms <= now
    &&& forall|j: int|
        0 <= j < s.len() && j != i && s[j].retry_at_ms <= now ==> #[trigger] goes_before(s, i, j)
}

/// Whether a command cancels something.
pub fn is_cancel_command(command: &Command) -> (r: bool)
    ensures
        r == cancels(*command),
{
    match command {
        Command::CancelOrder(_) | Command::CancelAll(_) => true,
        _ => false,
    }
}

/// Whether two commands cancel the same.
pub fn same_cancel_command(left: &Command, right: &Command) -> (r: bool)
    ensures
        r == cancels_same(*left, *right),
{
    match (left, right) {
        (Command::CancelOrder(a), Command::CancelOrder(b)) => a.exchange.same(&b.exchange)
            && a.client_id.same(&b.client_id),
        (Command::CancelAll(a), Command::CancelAll(b)) => a.exchange.same(&b.exchange) && match (
            &a.instrument,
            &b.instrument,
        ) {
            (Some(x), Some(y)) => x.same(y),
            (None, None) => true,
            _ => false,
        },
        _ => false,
    }
}

/// The commands that wait.
#[derive(Debug)]
pub struct DeferredQueue {
    items: Vec<DeferredActionLimitCommand>,
}

impl DeferredQueue {
    /// What waits, in the order in which it came.
    pub closed spec fn view(&self) -> Seq<DeferredActionLimitCommand> {
        self.items@
    }

    /// Nothing waits.
    pub fn new() -> (r: DeferredQueue)
        ensures
            r@ == Seq::<DeferredActionLimitCommand>::empty(),
    {
        DeferredQueue { items: Vec::new() }
    }

    /// How many commands wait.
    pub fn len(&self) -> (r: usize)
        ensures
            r == self@.len(),
    {
        self.items.len()
    }

    fn find_same(&self, command: &Command) -> (r: usize)
        ensures
            r == first_same(self@, *command),
            r <= self@.len(),
    {
        let n: usize = self.items.len();
        let mut found: usize = 0;
        let mut i: usize = 0;
        assert(self@.subrange(0, 0) =~= Seq::empty());
        while i < n
            invariant
                n == self@.len(),
                i <= n,
                found <= i,
                found == first_same(self@.subrange(0, i as int), *command),
            decreases n - i,
        {
            assert(self@.subrange(0, i + 1).drop_last() =~= self@.subrange(0, i as int));
            if found == i && !same_cancel_command(&self.items[i].command, command) {
                found = i + 1;
            }
            i = i + 1;
        }
        assert(self@.subrange(0, n as int) =~= self@);
        found
    }

    /// Lets a command wait; says `false`, and changes nothing, where the queue is full.
    pub fn defer(&mut self, command: Command, retry_at_ms: i64) -> (r: bool)
        ensures
            match deferred_after(old(self)@, command, retry_at_ms) {
                Some(s) => r && final(self)@ == s,
                None => !r && final(self)@ == old(self)@,
            },
    {
        if is_cancel_command(&command) {
            let i = self.find_same(&command);
            if i < self.items.len() {
                if retry_at_ms < self.items[i].retry_at_ms {
                    self.items[i].retry_at_ms = retry_at_ms;
                }
                assert(self@ =~= deferred_after(old(self)@, command, retry_at_ms)->0);
                return true;
            }
        }
        if self.items.len() >= MAX_DEFERRED_ACTION_LIMIT_COMMANDS {
            return false;
        }
        self.items.push(DeferredActionLimitCommand { retry_at_ms, command });
        true
    }

    /// The place of the next command to be tried again.
    pub fn next_index(&self, now: i64) -> (r: Option<usize>)
        ensures
            match r {
                Some(i) => is_next(self@, now, i as int),
                None => forall|j: int| 0 <= j < self@.len() ==> (#[trigger] self@[j]).retry_at_ms > now,
            },
    {
        let n: usize = self.items.len();
        let mut selected: Option<usize> = None;
        let mut i: usize = 0;
        while i < n
            invariant
                n == self@.len(),
                i <= n,
                match selected {
                    Some(k) => k < i && self@[k as int].retry_at_ms <= now && (forall|j: int|
                        0 <= j < i && j != k && self@[j].retry_at_ms <= now
                            ==> #[trigger] goes_before(self@, k as int, j)),
                    None => forall|j: int|
                        0 <= j < i ==> (#[trigger] self@[j]).retry_at_ms > now,
                },
            decreases n - i,
        {
            let item = &self.items[i];
            assert(*item == self@[i as int]);
            if item.retry_at_ms <= now {
                match selected {
                    None => {
                        selected = Some(i);
                    },
                    Some(k) => {
                        let best = &self.items[k];
                        assert(*best == self@[k as int]);
                        let a = is_cancel_command(&item.command);
                        let b = is_cancel_command(&best.command);
                        if (a && !b) || (a == b && item.retry_at_ms < best.retry_at_ms) {
                            assert(goes_before(self@, i as int, k as int));
                            assert forall|j: int|
                                0 <= j < i + 1 && j != i && self@[j].retry_at_ms
                                    <= now implies #[trigger] goes_before(self@, i as int, j) by {
                                if j != k {
                                    assert(goes_before(self@, k as int, j));
                                }
                            }
                            selected = Some(i);
                        } else {
                            assert(goes_before(self@, k as int, i as int));
                        }
                    },
                }
            }
            i = i + 1;
        }
        selected
    }

    /// Takes the next command that is due.
    pub fn take_next(&mut self, now: i64) -> (r: Option<Command>)
        ensures
            match r {
                Some(c) => exists|i: int| #[trigger]
                    is_next(old(self)@, now, i) && c == old(self)@[i].command && final(self)@
                        == old(self)@.remove(i),
                None => final(self)@ == old(self)@ && (forall|j: int|
                    0 <= j < old(self)@.len() ==> (#[trigger] old(self)@[j]).retry_at_ms > now),
            },
    {
        match self.next_index(now) {
            Some(i) => {
                let item = self.items.remove(i);
                Some(item.command)
            },
            None => None,
        }
    }
}

pub proof fn lemma_first_same(s: Seq<DeferredActionLimitCommand>, command: Command)
    ensures
        0 <= first_same(s, command) <= s.len(),
        first_same(s, command) < s.len() ==> cancels_same(
            s[first_same(s, command)].command,
            command,
        ),
        forall|j: int|
            0 <= j < first_same(s, command) ==> !cancels_same(#[trigger] s[j].command, command),
    decreases s.len(),
{
    if s.len() > 0 {
        lemma_first_same(s.drop_last(), command);
        assert forall|j: int| 0 <= j < first_same(s, command) implies !cancels_same(
            #[trigger] s[j].command,
            command,
        ) by {
            if j < s.len() - 1 {
                assert(s.drop_last()[j] == s[j]);
            }
        }
    }
}

/// No cancel waits twice.
pub open spec fn cancels_once(s: Seq<DeferredActionLimitCommand>) -> bool {
    forall|i: int, j: int|
        0 <= i < j < s.len() ==> !cancels_same(#[trigger] s[i].command, #[trigger] s[j].command)
}

/// The queue never holds more than its limit, and no cancel twice, whatever is put there.
pub proof fn law_queue_stays_sound(
    s: Seq<DeferredActionLimitCommand>,
    command: Command,
    retry_at_ms: i64,
)
    requires
        s.len() <= MAX_DEFERRED_ACTION_LIMIT_COMMANDS,
        cancels_once(s),
    ensures
        deferred_after(s, command, retry_at_ms) matches Some(t) ==> t.len()
            <= MAX_DEFERRED_ACTION_LIMIT_COMMANDS && cancels_once(t),
{
    lemma_first_same(s, command);
    if let Some(t) = deferred_after(s, command, retry_at_ms) {
        assert forall|i: int, j: int| 0 <= i < j < t.len() implies !cancels_same(
            #[trigger] t[i].command,
            #[trigger] t[j].command,
        ) by {
            if j < s.len() {
                assert(t[i].command == s[i].command);
                assert(t[j].command == s[j].command);
            } else if cancels(command) {
                assert(t[i].command == s[i].command);
            }
        }
    }
}

/// There is one next command at most.
pub proof fn law_next_is_unique(s: Seq<DeferredActionLimitCommand>, now: i64, i: int, j: int)
    requires
        is_next(s, now, i),
        is_next(s, now, j),
    ensures
        i == j,
{
    if i != j {
        assert(goes_before(s, i, j));
        assert(goes_before(s, j, i));
    }
}

} // verus!
