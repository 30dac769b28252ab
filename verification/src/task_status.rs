use vstd::prelude::*;

verus! {

/// The observable state of a background task: waiting since some tick,
/// finished with a result, or failed.
pub enum TaskStatus<T> {
    Done(Box<T>),
    Failed,
    Waiting(u64),
}

impl<T> TaskStatus<T> {
    /// A settled status: the task has answered, one way or the other.
    pub open spec fn is_terminal(&self) -> bool {
        self is Done || self is Failed
    }

    /// What one polled word from the task does to a status: nothing yet
    /// leaves it alone, an answer settles a waiting status, and a
    /// settled status never changes again.
    pub open spec fn next_status(self, event: Option<Option<T>>) -> TaskStatus<T> {
        if self.is_terminal() {
            self
        } else {
            match event {
                Some(Some(v)) => TaskStatus::Done(Box::new(v)),
                Some(Option::None) => TaskStatus::Failed,
                Option::None => self,
            }
        }
    }

    /// Fold one polled word from the task into the status.
    pub fn update(&mut self, event: Option<Option<T>>)
        ensures
            *final(self) == old(self).next_status(event),
    {
        let settled = match self {
            TaskStatus::Done(_) => true,
            TaskStatus::Failed => true,
            TaskStatus::Waiting(_) => false,
        };
        if !settled {
            match event {
                Some(Some(v)) => {
                    *self = TaskStatus::Done(Box::new(v));
                },
                Some(Option::None) => {
                    *self = TaskStatus::Failed;
                },
                Option::None => {},
            }
        }
    }
}

/// The status after any run of polled words, starting from `init`.
pub open spec fn fold_status<T>(
    init: TaskStatus<T>,
    events: Seq<Option<Option<T>>>,
) -> TaskStatus<T>
    decreases events.len(),
{
    if events.len() == 0 {
        init
    } else {
        fold_status(init, events.drop_last()).next_status(events.last())
    }
}

/// Status transitions are monotonic: once a poll has shown `Done` or
/// `Failed`, every later poll shows the same settled status, however
/// many more words arrive.
pub proof fn lemma_status_stays_settled<T>(
    init: TaskStatus<T>,
    events: Seq<Option<Option<T>>>,
    more: Seq<Option<Option<T>>>,
)
    requires
        fold_status(init, events).is_terminal(),
    ensures
        fold_status(init, events + more) == fold_status(init, events),
    decreases more.len(),
{
    if more.len() == 0 {
        assert(events + more =~= events);
    } else {
        assert((events + more).drop_last() =~= events + more.drop_last());
        assert((events + more).last() == more.last());
        lemma_status_stays_settled(init, events, more.drop_last());
    }
}

/// A settled status is only ever reached from a `Waiting` one: polling
/// can never show `Done` or `Failed` without the status having been
/// `Waiting` beforehand, as a task's status starts out `Waiting`.
pub proof fn lemma_settled_only_after_waiting<T>(start: u64, events: Seq<Option<Option<T>>>)
    requires
        fold_status(TaskStatus::<T>::Waiting(start), events).is_terminal(),
    ensures
        exists|k: int|
            0 <= k <= events.len() && !fold_status(
                TaskStatus::<T>::Waiting(start),
                #[trigger] events.take(k),
            ).is_terminal(),
{
    assert(events.take(0) =~= Seq::<Option<Option<T>>>::empty());
    assert(fold_status(TaskStatus::<T>::Waiting(start), events.take(0)) == TaskStatus::<
        T,
    >::Waiting(start));
}

} // verus!
