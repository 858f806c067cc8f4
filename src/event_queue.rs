use vstd::prelude::*;
use std::ops::DerefMut;
use std::sync::{Arc, Mutex, MutexGuard, PoisonError};
use std::time::Duration;
use crossbeam_channel::{Iter, Receiver, RecvError, RecvTimeoutError, SendError, Sender, TryRecvError};
use crate::error::RegistryError;
use crate::events::RegistryEvent;

verus! {

#[verifier::external_type_specification]
#[verifier::external_body]
#[verifier::reject_recursive_types(T)]
pub struct ExSender<T>(Sender<T>);

#[verifier::external_type_specification]
#[verifier::external_body]
#[verifier::reject_recursive_types(T)]
pub struct ExReceiver<T>(Receiver<T>);

#[verifier::external_type_specification]
#[verifier::external_body]
#[verifier::reject_recursive_types(T)]
pub struct ExIter<'a, T>(Iter<'a, T>);

#[verifier::external_type_specification]
#[verifier::external_body]
#[verifier::reject_recursive_types(T)]
pub struct ExSendError<T>(SendError<T>);

#[verifier::external_type_specification]
#[verifier::external_body]
pub struct ExRecvError(RecvError);

#[verifier::external_type_specification]
pub struct ExTryRecvError(TryRecvError);

#[verifier::external_type_specification]
pub struct ExRecvTimeoutError(RecvTimeoutError);

/// The largest capacity a bounded queue accepts; crossbeam's `bounded`
/// panics on capacities whose doubled next power of two overflows.
pub const MAX_QUEUE_CAPACITY: usize = usize::MAX >> 2;

/// Relies on crossbeam_channel::bounded: a channel holding at most `cap`
/// messages (a rendezvous channel for 0).
pub assume_specification<T>[ crossbeam_channel::bounded::<T> ](cap: usize) -> (Sender<T>, Receiver<T>)
    requires
        cap <= MAX_QUEUE_CAPACITY,
;

/// Relies on crossbeam_channel::unbounded: a channel without a capacity.
pub assume_specification<T>[ crossbeam_channel::unbounded::<T> ]() -> (Sender<T>, Receiver<T>);

/// Relies on Sender::send: delivers the message, blocking while a bounded
/// channel is full; fails only once every receiver is gone.
pub assume_specification<T>[ Sender::<T>::send ](s: &Sender<T>, msg: T) -> Result<(), SendError<T>>;

/// Relies on Receiver::recv: blocks for the next message; fails only once
/// the channel is empty and every sender is gone.
pub assume_specification<T>[ Receiver::<T>::recv ](r: &Receiver<T>) -> Result<T, RecvError>;

/// Relies on Receiver::try_recv: the next message if one is waiting.
pub assume_specification<T>[ Receiver::<T>::try_recv ](r: &Receiver<T>) -> Result<T, TryRecvError>;

/// Relies on Receiver::recv_timeout: the next message within `timeout`.
pub assume_specification<T>[ Receiver::<T>::recv_timeout ](r: &Receiver<T>, timeout: Duration) -> Result<
    T,
    RecvTimeoutError,
>;

/// Relies on Receiver::iter: a blocking iterator over incoming messages.
pub assume_specification<'a, T>[ Receiver::<T>::iter ](r: &'a Receiver<T>) -> Iter<'a, T>;



#[verifier::external_type_specification]
#[verifier::external_body]
#[verifier::reject_recursive_types(T)]
pub struct ExMutex<T: ?Sized>(Mutex<T>);

#[verifier::external_type_specification]
#[verifier::external_body]
#[verifier::reject_recursive_types(T)]
pub struct ExMutexGuard<'a, T: ?Sized + 'a>(MutexGuard<'a, T>);

#[verifier::external_type_specification]
#[verifier::external_body]
#[verifier::reject_recursive_types(T)]
pub struct ExPoisonError<T>(PoisonError<T>);

/// Relies on Mutex::new: a new unlocked mutex holding `t`.
pub assume_specification<T>[ Mutex::<T>::new ](t: T) -> Mutex<T>;

/// Relies on Mutex::lock: blocks until the lock is held; an error only
/// reports that another holder panicked, and still carries the guard. No
/// thread here takes the lock while already holding it.
pub assume_specification<'a, T: ?Sized>[ Mutex::<T>::lock ](m: &'a Mutex<T>) -> Result<
    MutexGuard<'a, T>,
    PoisonError<MutexGuard<'a, T>>,
>;

/// Relies on PoisonError::into_inner: the guard the failed lock carried.
pub assume_specification<T>[ PoisonError::<T>::into_inner ](e: PoisonError<T>) -> T;

/// Relies on MutexGuard's DerefMut: the value the held lock protects.
pub assume_specification<'a, 'b, T: ?Sized>[ <MutexGuard<'a, T> as std::ops::DerefMut>::deref_mut ](
    g: &'b mut MutexGuard<'a, T>,
) -> &'b mut T;

struct QueueInner {
    subscribers: Mutex<Vec<Sender<RegistryEvent>>>,
    capacity: Option<usize>,
}

/// Fan-out of registry events to independent subscriber queues, bounded
/// (senders block on a full queue) or unbounded.
#[derive(Clone)]
pub struct RegistryEventQueue {
    inner: Arc<QueueInner>,
}

/// One subscriber's end of the event queue.
pub struct RegistryEventReceiver {
    receiver: Receiver<RegistryEvent>,
}

/// The elements of `s` whose flag in `ok` is set, in order.
pub open spec fn kept<T>(s: Seq<T>, ok: Seq<bool>) -> Seq<T>
    decreases s.len(),
{
    if s.len() == 0 {
        Seq::empty()
    } else {
        (if ok[0] {
            seq![s[0]]
        } else {
            Seq::empty()
        }) + kept(s.drop_first(), ok.drop_first())
    }
}

/// The subscribers whose send succeeded (`accepted[i]` for the `i`-th), in order.
pub fn keep_accepted(subscribers: Vec<Sender<RegistryEvent>>, accepted: &Vec<bool>) -> (r: Vec<
    Sender<RegistryEvent>,
>)
    requires
        accepted@.len() == subscribers@.len(),
    ensures
        r@ == kept(subscribers@, accepted@),
{
    let ghost start = subscribers@;
    let n = subscribers.len();
    let mut rest = subscribers;
    let mut out: Vec<Sender<RegistryEvent>> = Vec::new();
    let mut k: usize = 0;
    proof {
        assert(start.subrange(0, n as int) =~= start);
        assert(accepted@.subrange(0, n as int) =~= accepted@);
        assert(out@ + kept(rest@, accepted@.subrange(0, n as int)) =~= kept(start, accepted@));
    }
    while k < n
        invariant
            n == start.len(),
            accepted@.len() == n,
            k <= n,
            rest@ == start.subrange(k as int, n as int),
            out@ + kept(rest@, accepted@.subrange(k as int, n as int)) == kept(start, accepted@),
        decreases n - k,
    {
        let ghost ok = accepted@.subrange(k as int, n as int);
        let ghost before = rest@;
        let s0 = rest.remove(0);
        proof {
            assert(ok.drop_first() =~= accepted@.subrange(k + 1, n as int));
            assert(before.drop_first() =~= rest@);
            assert(rest@ =~= start.subrange(k + 1, n as int));
        }
        if accepted[k] {
            proof {
                assert(out@.push(s0) + kept(rest@, ok.drop_first()) =~= out@ + kept(before, ok));
            }
            out.push(s0);
        } else {
            proof {
                assert(out@ + kept(rest@, ok.drop_first()) =~= out@ + kept(before, ok));
            }
        }
        k += 1;
    }
    proof {
        assert(rest@.len() == 0);
        assert(out@ + kept(rest@, accepted@.subrange(k as int, n as int)) =~= out@);
    }
    out
}

/// Offers each event, in order, to every subscriber of that round, and keeps
/// for the next round exactly the subscribers that accepted it. The returned
/// ghost value records the subscribers of each round and their outcomes.
fn broadcast(subscribers: &mut Vec<Sender<RegistryEvent>>, events: Vec<RegistryEvent>) -> (log: Ghost<
    (Seq<Seq<Sender<RegistryEvent>>>, Seq<Seq<bool>>),
>)
    ensures
        log@.0.len() == events@.len() + 1,
        log@.1.len() == events@.len(),
        log@.0[0] == old(subscribers)@,
        log@.0[events@.len() as int] == final(subscribers)@,
        forall|k: int|
            0 <= k < events@.len() ==> (#[trigger] log@.1[k]).len() == log@.0[k].len() && log@.0[k + 1]
                == kept(log@.0[k], log@.1[k]),
{
    let ghost mut rounds: Seq<Seq<Sender<RegistryEvent>>> = seq![subscribers@];
    let ghost mut outcomes: Seq<Seq<bool>> = Seq::empty();
    let mut k: usize = 0;
    while k < events.len()
        invariant
            k <= events@.len(),
            rounds.len() == k + 1,
            outcomes.len() == k,
            rounds[0] == old(subscribers)@,
            rounds[k as int] == subscribers@,
            forall|j: int|
                0 <= j < k ==> (#[trigger] outcomes[j]).len() == rounds[j].len() && rounds[j + 1]
                    == kept(rounds[j], outcomes[j]),
        decreases events@.len() - k,
    {
        let mut accepted: Vec<bool> = Vec::new();
        let mut i: usize = 0;
        while i < subscribers.len()
            invariant
                k < events@.len(),
                i <= subscribers@.len(),
                accepted@.len() == i,
            decreases subscribers@.len() - i,
        {
            let delivered = subscribers[i].send(events[k].clone()).is_ok();
            accepted.push(delivered);
            i += 1;
        }
        let mut current: Vec<Sender<RegistryEvent>> = Vec::new();
        std::mem::swap(&mut current, subscribers);
        let survivors = keep_accepted(current, &accepted);
        *subscribers = survivors;
        proof {
            outcomes = outcomes.push(accepted@);
            rounds = rounds.push(subscribers@);
        }
        k += 1;
    }
    Ghost((rounds, outcomes))
}

impl RegistryEventQueue {
    pub closed spec fn wf(self) -> bool {
        self.inner.capacity is Some ==> self.inner.capacity->0 <= MAX_QUEUE_CAPACITY
    }

    /// A queue whose subscribers each buffer at most `capacity` events.
    pub fn bounded(capacity: usize) -> (q: RegistryEventQueue)
        requires
            capacity <= MAX_QUEUE_CAPACITY,
        ensures
            q.wf(),
    {
        Self::with_capacity(Some(capacity))
    }

    /// A queue whose subscribers buffer any number of events.
    pub fn unbounded() -> (q: RegistryEventQueue)
        ensures
            q.wf(),
    {
        Self::with_capacity(None)
    }

    fn with_capacity(capacity: Option<usize>) -> (q: RegistryEventQueue)
        requires
            capacity is Some ==> capacity->0 <= MAX_QUEUE_CAPACITY,
        ensures
            q.wf(),
    {
        let subscribers = Mutex::new(Vec::new());
        RegistryEventQueue { inner: Arc::new(QueueInner { subscribers, capacity }) }
    }

    /// Adds a subscriber with its own queue.
    pub fn subscribe(&self) -> RegistryEventReceiver
        requires
            self.wf(),
    {
        let (tx, rx) = match self.inner.capacity {
            Some(capacity) => crossbeam_channel::bounded(capacity),
            None => crossbeam_channel::unbounded(),
        };
        // A poisoned lock is recovered rather than propagated as a panic:
        // verified code here does not panic, and nothing panics while holding
        // this lock, so the list is never left half-updated.
        let mut guard = match self.inner.subscribers.lock() {
            Ok(g) => g,
            Err(poisoned) => poisoned.into_inner(),
        };
        guard.deref_mut().push(tx);
        RegistryEventReceiver { receiver: rx }
    }

    /// Delivers `events`, in order, to every live subscriber; subscribers
    /// whose receiver is gone are dropped silently.
    pub fn send(&self, events: Vec<RegistryEvent>) -> (r: Result<(), RegistryError>)
        requires
            self.wf(),
        ensures
            r is Ok,
    {
        // A poisoned lock is recovered rather than propagated as a panic:
        // verified code here does not panic, and nothing panics while holding
        // this lock, so the list is never left half-updated.
        let mut guard = match self.inner.subscribers.lock() {
            Ok(g) => g,
            Err(poisoned) => poisoned.into_inner(),
        };
        broadcast(guard.deref_mut(), events);
        Ok(())
    }
}

impl RegistryEventReceiver {
    /// Blocks for the next event; fails once the queue is closed and drained.
    pub fn recv(&self) -> (r: Result<RegistryEvent, RegistryError>)
        ensures
            r is Err ==> r == Err::<RegistryEvent, RegistryError>(RegistryError::EventQueueClosed),
    {
        match self.receiver.recv() {
            Ok(event) => Ok(event),
            Err(_) => Err(RegistryError::EventQueueClosed),
        }
    }

    /// The next event if one is waiting, `None` if the queue is empty.
    pub fn try_recv(&self) -> (r: Result<Option<RegistryEvent>, RegistryError>)
        ensures
            r is Err ==> r == Err::<Option<RegistryEvent>, RegistryError>(RegistryError::EventQueueClosed),
    {
        Self::map_try_recv(self.receiver.try_recv())
    }

    /// What a poll result means: an event, an empty queue (`Ok(None)`), or a
    /// closed one.
    pub fn map_try_recv(res: Result<RegistryEvent, TryRecvError>) -> (r: Result<
        Option<RegistryEvent>,
        RegistryError,
    >)
        ensures
            r == match res {
                Ok(e) => Ok(Some(e)),
                Err(TryRecvError::Empty) => Ok(None),
                Err(TryRecvError::Disconnected) => Err(RegistryError::EventQueueClosed),
            },
    {
        match res {
            Ok(event) => Ok(Some(event)),
            Err(TryRecvError::Empty) => Ok(None),
            Err(TryRecvError::Disconnected) => Err(RegistryError::EventQueueClosed),
        }
    }

    /// The next event within `timeout`.
    pub fn recv_timeout(&self, timeout: Duration) -> (r: Result<RegistryEvent, RegistryError>)
        ensures
            r is Err ==> r == Err::<RegistryEvent, RegistryError>(RegistryError::EventQueueTimeout)
                || r == Err::<RegistryEvent, RegistryError>(RegistryError::EventQueueClosed),
    {
        match self.receiver.recv_timeout(timeout) {
            Ok(event) => Ok(event),
            Err(e) => Err(Self::map_recv_timeout(e)),
        }
    }

    /// A blocking iterator over the incoming events.
    pub fn iter(&self) -> Iter<'_, RegistryEvent> {
        self.receiver.iter()
    }

    /// A timed-out wait is `EventQueueTimeout`; a disconnected queue is
    /// `EventQueueClosed`.
    pub fn map_recv_timeout(err: RecvTimeoutError) -> (r: RegistryError)
        ensures
            r == match err {
                RecvTimeoutError::Timeout => RegistryError::EventQueueTimeout,
                RecvTimeoutError::Disconnected => RegistryError::EventQueueClosed,
            },
    {
        match err {
            RecvTimeoutError::Timeout => RegistryError::EventQueueTimeout,
            RecvTimeoutError::Disconnected => RegistryError::EventQueueClosed,
        }
    }
}

} // verus!
