//! Why SQL is executed, and what its hooks have seen.

use crate::error::{refusal, Error, ErrorView, Result};
use vstd::prelude::*;

verus! {

/// Why SQL is executed.
#[derive(Clone, Copy, Debug, PartialEq, Eq, Structural)]
pub enum ExecutionMode {
    /// The application asked for it, and it is captured.
    Public,
    /// The library's own schema and metadata.
    InternalMetadata,
    /// An admitted operation of another device is applied.
    RemoteApply,
    /// Local state is restored by an explicit repair.
    Repair,
}

/// What the hooks of one connection share.
#[derive(Debug, PartialEq, Eq)]
pub struct HookState<E> {
    modes: Vec<ExecutionMode>,
    events: Vec<E>,
    callback_error: Option<Error>,
    operation_active: bool,
}

/// The shared state as a mathematical value.
#[verifier::ext_equal]
pub struct HookView<E> {
    pub modes: Seq<ExecutionMode>,
    pub events: Seq<E>,
    pub error: Option<ErrorView>,
    pub active: bool,
}

impl<E> View for HookState<E> {
    type V = HookView<E>;

    closed spec fn view(&self) -> HookView<E> {
        HookView {
            modes: self.modes@,
            events: self.events@,
            error: match self.callback_error {
                Some(error) => Some(error@),
                None => None,
            },
            active: self.operation_active,
        }
    }
}

/// The mode that was entered last, or that of the library's own work.
pub open spec fn current_mode(modes: Seq<ExecutionMode>) -> ExecutionMode {
    if modes.len() == 0 {
        ExecutionMode::InternalMetadata
    } else {
        modes.last()
    }
}

/// The state after a hook ran. Nothing is recorded behind its first failure.
pub open spec fn recorded<E>(
    state: HookView<E>,
    seen: std::result::Result<Option<E>, ErrorView>,
) -> HookView<E> {
    if state.error is Some {
        state
    } else {
        match seen {
            Ok(Some(event)) => HookView { events: state.events.push(event), ..state },
            Ok(None) => state,
            Err(error) => HookView { error: Some(error), ..state },
        }
    }
}

/// The state after an operation begins.
pub open spec fn begun<E>(state: HookView<E>) -> HookView<E> {
    HookView { active: true, error: None, ..state }
}

/// The state after an operation ends: the events that it recorded are taken out.
pub open spec fn ended<E>(state: HookView<E>, checkpoint: int) -> HookView<E> {
    HookView { events: state.events.take(checkpoint), error: None, active: false, ..state }
}

/// The state within a mode.
pub open spec fn entered<E>(state: HookView<E>, mode: ExecutionMode) -> HookView<E> {
    HookView { modes: state.modes.push(mode), ..state }
}

/// The state after the mode that was entered last is left.
pub open spec fn left<E>(state: HookView<E>) -> HookView<E> {
    HookView {
        modes: if state.modes.len() == 0 {
            state.modes
        } else {
            state.modes.drop_last()
        },
        ..state
    }
}

impl<E> HookState<E> {
    /// No mode entered and nothing seen.
    pub fn new() -> (r: HookState<E>)
        ensures
            r@ == (HookView::<E> {
                modes: Seq::empty(),
                events: Seq::empty(),
                error: None,
                active: false,
            }),
    {
        HookState {
            modes: Vec::new(),
            events: Vec::new(),
            callback_error: None,
            operation_active: false,
        }
    }

    /// The current mode.
    pub fn mode(&self) -> (r: ExecutionMode)
        ensures
            r == current_mode(self@.modes),
    {
        if self.modes.len() == 0 {
            ExecutionMode::InternalMetadata
        } else {
            self.modes[self.modes.len() - 1]
        }
    }

    /// Enter a mode.
    pub fn enter(&mut self, mode: ExecutionMode)
        ensures
            final(self)@ == entered(old(self)@, mode),
    {
        self.modes.push(mode);
    }

    /// Leave the mode that was entered last.
    pub fn leave(&mut self) -> (r: Option<ExecutionMode>)
        ensures
            final(self)@ == left(old(self)@),
            r == (if old(self)@.modes.len() == 0 {
                None
            } else {
                Some(old(self)@.modes.last())
            }),
    {
        self.modes.pop()
    }

    /// Begin an operation. Operations do not nest.
    pub fn begin(&mut self) -> (r: Result<()>)
        ensures
            refusal(r) == (if old(self)@.active {
                Some(ErrorView::CaptureInvariant("nested runtime operations are not supported"@))
            } else {
                None
            }),
            final(self)@ == (if old(self)@.active {
                old(self)@
            } else {
                begun(old(self)@)
            }),
    {
        if self.operation_active {
            return Err(Error::CaptureInvariant("nested runtime operations are not supported"));
        }
        self.operation_active = true;
        self.callback_error = None;
        Ok(())
    }

    /// How many events were recorded.
    pub fn event_count(&self) -> (r: usize)
        ensures
            r == self@.events.len(),
    {
        self.events.len()
    }

    /// Whether a hook failed, so that the hooks see nothing more.
    pub fn has_failed(&self) -> (r: bool)
        ensures
            r == (self@.error is Some),
    {
        self.callback_error.is_some()
    }

    /// Record what a hook saw.
    pub fn record(&mut self, seen: Result<Option<E>>)
        ensures
            final(self)@ == recorded(
                old(self)@,
                match seen {
                    Ok(event) => Ok(event),
                    Err(error) => Err(error@),
                },
            ),
    {
        if self.callback_error.is_some() {
            return ;
        }
        match seen {
            Ok(Some(event)) => {
                self.events.push(event);
            },
            Ok(None) => {},
            Err(error) => {
                self.callback_error = Some(error);
            },
        }
    }

    /// The outcome of an operation: a failure of a hook goes before it.
    pub fn settle<T>(&mut self, result: Result<T>) -> (r: Result<T>)
        ensures
            final(self)@ == (HookView { error: None, ..old(self)@ }),
            match old(self)@.error {
                Some(error) => r matches Err(found) && found@ == error,
                None => r == result,
            },
    {
        match self.callback_error.take() {
            Some(error) => Err(error),
            None => result,
        }
    }

    /// End an operation and hand out the events that it recorded.
    pub fn commit(&mut self, checkpoint: usize) -> (r: Vec<E>)
        requires
            checkpoint <= old(self)@.events.len(),
        ensures
            final(self)@ == ended(old(self)@, checkpoint as int),
            r@ == old(self)@.events.skip(checkpoint as int),
    {
        self.operation_active = false;
        self.callback_error = None;
        let events = self.events.split_off(checkpoint);
        assert(self.events@ =~= old(self)@.events.take(checkpoint as int));
        assert(events@ =~= old(self)@.events.skip(checkpoint as int));
        events
    }

    /// End an operation and drop the events that it recorded.
    pub fn abandon(&mut self, checkpoint: usize)
        requires
            checkpoint <= old(self)@.events.len(),
        ensures
            final(self)@ == ended(old(self)@, checkpoint as int),
    {
        self.operation_active = false;
        self.callback_error = None;
        self.events.truncate(checkpoint);
        assert(self.events@ =~= old(self)@.events.take(checkpoint as int));
    }
}

/// Leaving a mode restores the one before it, whatever the hooks saw within.
pub proof fn modes_are_restored_in_reverse_order<E>(
    state: HookView<E>,
    mode: ExecutionMode,
    seen: std::result::Result<Option<E>, ErrorView>,
)
    ensures
        current_mode(entered(state, mode).modes) == mode,
        left(recorded(entered(state, mode), seen)).modes == state.modes,
        left(entered(state, mode)) == state,
{
    assert(state.modes.push(mode).drop_last() =~= state.modes);
}

/// The state after hooks ran.
pub open spec fn recorded_all<E>(
    state: HookView<E>,
    seen: Seq<std::result::Result<Option<E>, ErrorView>>,
) -> HookView<E>
    decreases seen.len(),
{
    if seen.len() == 0 {
        state
    } else {
        recorded(recorded_all(state, seen.drop_last()), seen.last())
    }
}

/// Hooks only add events, and leave the modes alone.
proof fn lemma_recorded_all<E>(
    state: HookView<E>,
    seen: Seq<std::result::Result<Option<E>, ErrorView>>,
)
    ensures
        recorded_all(state, seen).modes == state.modes,
        recorded_all(state, seen).active == state.active,
        recorded_all(state, seen).events.len() >= state.events.len(),
        recorded_all(state, seen).events.take(state.events.len() as int) == state.events,
    decreases seen.len(),
{
    let n = state.events.len() as int;
    if seen.len() == 0 {
        assert(state.events.take(n) =~= state.events);
    } else {
        lemma_recorded_all(state, seen.drop_last());
        let before = recorded_all(state, seen.drop_last());
        let after = recorded_all(state, seen);
        assert(after.events.take(n) =~= before.events.take(n));
    }
}

/// An operation that is rolled back leaves no event and no failure behind: the
/// state is what it was before the operation began.
pub proof fn abandoned_operations_leave_nothing<E>(
    state: HookView<E>,
    seen: Seq<std::result::Result<Option<E>, ErrorView>>,
)
    requires
        !state.active,
        state.error is None,
    ensures
        ended(recorded_all(begun(state), seen), state.events.len() as int) == state,
{
    lemma_recorded_all(begun(state), seen);
    assert(ended(recorded_all(begun(state), seen), state.events.len() as int).events
        =~= state.events);
}

/// An operation hands out exactly the events of its own hooks, in order, up to
/// the first failure.
pub proof fn operations_hand_out_their_own_events<E>(state: HookView<E>, events: Seq<E>)
    ensures
        recorded_all(
            begun(state),
            events.map_values(|event: E| Ok::<Option<E>, ErrorView>(Some(event))),
        ).events.skip(state.events.len() as int) == events,
{
    lemma_successes(begun(state), events);
    assert((state.events + events).skip(state.events.len() as int) =~= events);
}

/// Hooks that do not fail add their events.
proof fn lemma_successes<E>(state: HookView<E>, events: Seq<E>)
    requires
        state.error is None,
    ensures
        recorded_all(
            state,
            events.map_values(|event: E| Ok::<Option<E>, ErrorView>(Some(event))),
        ) == (HookView { events: state.events + events, ..state }),
    decreases events.len(),
{
    let wrap = |event: E| Ok::<Option<E>, ErrorView>(Some(event));
    let seen = events.map_values(wrap);
    if events.len() == 0 {
        assert(state.events + events =~= state.events);
    } else {
        lemma_successes(state, events.drop_last());
        assert(seen.drop_last() =~= events.drop_last().map_values(wrap));
        assert((state.events + events.drop_last()).push(events.last()) =~= state.events + events);
    }
}

/// The first failure of a hook is the one that is kept: behind it nothing is
/// recorded, neither an event nor another failure.
pub proof fn the_first_failure_is_kept<E>(
    state: HookView<E>,
    error: ErrorView,
    seen: Seq<std::result::Result<Option<E>, ErrorView>>,
)
    requires
        state.error is None,
    ensures
        recorded(state, Err(error)).error == Some(error),
        recorded(state, Err(error)).events == state.events,
        recorded_all(recorded(state, Err(error)), seen) == recorded(state, Err(error)),
    decreases seen.len(),
{
    if seen.len() > 0 {
        the_first_failure_is_kept(state, error, seen.drop_last());
    }
}

} // verus!
