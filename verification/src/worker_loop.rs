use crate::endpoints::chars_equal;
use crate::text_wrappers::str_chars;
use vstd::prelude::*;

verus! {

/// What the worker's command loop hears: a command from the server, the end
/// of a generation it started, a stop request, or the loss of the connection.
#[derive(Debug, Clone)]
pub enum WorkerEvent {
    /// The server's answer to the login.
    LoginResult { success: bool },
    /// The server's answer to a model pull.
    PullModelResult { failed: bool },
    /// An inference task (plain or chat); `model_loaded` says whether a
    /// model is loaded to run it.
    Task { task_id: String, model_loaded: bool },
    /// The generation for the named task came to its end.
    TaskFinished { task_id: String },
    /// The server asks to cancel the named task.
    Cancel { task_id: String },
    /// The local stop signal was raised.
    StopRequested,
    /// Reading from the server failed for good.
    ConnectionLost,
    /// A command the worker does not handle.
    Other,
}

/// What the loop does in answer.
#[derive(Debug, Clone)]
pub enum WorkerAction {
    Nothing,
    /// Tell the server which model this device serves.
    ReportModelStatus,
    /// Leave the loop.
    Stop,
    /// Answer the task at once with a final chunk saying no model is loaded.
    RejectTask { task_id: String },
    /// Start generating for the task.
    StartGeneration { task_id: String },
    /// Stop the generation that is running.
    StopGeneration,
}

/// An action, with its task id taken by its characters.
pub enum ActionView {
    Nothing,
    ReportModelStatus,
    Stop,
    RejectTask(Seq<char>),
    StartGeneration(Seq<char>),
    StopGeneration,
}

pub open spec fn action_view(a: WorkerAction) -> ActionView {
    match a {
        WorkerAction::Nothing => ActionView::Nothing,
        WorkerAction::ReportModelStatus => ActionView::ReportModelStatus,
        WorkerAction::Stop => ActionView::Stop,
        WorkerAction::RejectTask { task_id } => ActionView::RejectTask(task_id@),
        WorkerAction::StartGeneration { task_id } => ActionView::StartGeneration(task_id@),
        WorkerAction::StopGeneration => ActionView::StopGeneration,
    }
}

/// The loop's state: the task whose generation is running, if any, and
/// whether the loop has ended.
pub struct WorkerState {
    active_task: Option<String>,
    stopped: bool,
}

/// The state, with the task id taken by its characters.
pub struct WorkerView {
    pub active_task: Option<Seq<char>>,
    pub stopped: bool,
}

impl View for WorkerState {
    type V = WorkerView;

    closed spec fn view(&self) -> WorkerView {
        WorkerView {
            active_task: match self.active_task {
                Some(t) => Some(t@),
                None => None,
            },
            stopped: self.stopped,
        }
    }
}

/// One step of the command loop. Once stopped, the loop only answers
/// `Stop`. A failed login, a stop request or a lost connection end it; a
/// successful login is answered with the model status; a task is started
/// (and becomes the active one) when a model is loaded, else rejected; a
/// finished task stops being the active one; a cancel stops the generation
/// only when it names the active task. (This is the loop of the worker that
/// runs one generation at a time; the streaming worker keeps cancels of any
/// task in a `CancelSet`.)
pub open spec fn worker_step_spec(v: WorkerView, e: WorkerEvent) -> (WorkerView, ActionView) {
    if v.stopped {
        (v, ActionView::Stop)
    } else {
        match e {
            WorkerEvent::LoginResult { success } => if success {
                (v, ActionView::ReportModelStatus)
            } else {
                (WorkerView { stopped: true, ..v }, ActionView::Stop)
            },
            WorkerEvent::PullModelResult { .. } => (v, ActionView::Nothing),
            WorkerEvent::Task { task_id, model_loaded } => if model_loaded {
                (
                    WorkerView { active_task: Some(task_id@), ..v },
                    ActionView::StartGeneration(task_id@),
                )
            } else {
                (v, ActionView::RejectTask(task_id@))
            },
            WorkerEvent::TaskFinished { task_id } => if v.active_task == Some(task_id@) {
                (WorkerView { active_task: None, ..v }, ActionView::Nothing)
            } else {
                (v, ActionView::Nothing)
            },
            WorkerEvent::Cancel { task_id } => if v.active_task == Some(task_id@) {
                (v, ActionView::StopGeneration)
            } else {
                (v, ActionView::Nothing)
            },
            WorkerEvent::StopRequested | WorkerEvent::ConnectionLost => (
                WorkerView { stopped: true, ..v },
                ActionView::Stop,
            ),
            WorkerEvent::Other => (v, ActionView::Nothing),
        }
    }
}

fn same_task(active: &Option<String>, task_id: &String) -> (r: bool)
    ensures
        r == (match active {
            Some(t) => Some(t@),
            None => None,
        } == Some(task_id@)),
{
    match active {
        Some(t) => chars_equal(str_chars(t.as_str()).as_slice(), str_chars(task_id.as_str()).as_slice()),
        None => false,
    }
}

impl WorkerState {
    /// A loop that has not yet run any task.
    pub fn new() -> (r: Self)
        ensures
            r@ == (WorkerView { active_task: None, stopped: false }),
    {
        WorkerState { active_task: None, stopped: false }
    }

    /// Whether the loop has ended.
    pub fn is_stopped(&self) -> (r: bool)
        ensures
            r == self@.stopped,
    {
        self.stopped
    }
}

/// Advances the command loop by one event and says what to do.
pub fn worker_step(state: &mut WorkerState, event: WorkerEvent) -> (action: WorkerAction)
    ensures
        (final(state)@, action_view(action)) == worker_step_spec(old(state)@, event),
        event matches WorkerEvent::Cancel { task_id } ==> (action is StopGeneration <==> (
        !old(state)@.stopped && old(state)@.active_task == Some(task_id@))),
{
    if state.stopped {
        return WorkerAction::Stop;
    }
    match event {
        WorkerEvent::LoginResult { success } => {
            if success {
                WorkerAction::ReportModelStatus
            } else {
                state.stopped = true;
                WorkerAction::Stop
            }
        },
        WorkerEvent::PullModelResult { .. } => WorkerAction::Nothing,
        WorkerEvent::Task { task_id, model_loaded } => {
            if model_loaded {
                state.active_task = Some(task_id.clone());
                WorkerAction::StartGeneration { task_id }
            } else {
                WorkerAction::RejectTask { task_id }
            }
        },
        WorkerEvent::TaskFinished { task_id } => {
            if same_task(&state.active_task, &task_id) {
                state.active_task = None;
            }
            WorkerAction::Nothing
        },
        WorkerEvent::Cancel { task_id } => {
            if same_task(&state.active_task, &task_id) {
                WorkerAction::StopGeneration
            } else {
                WorkerAction::Nothing
            }
        },
        WorkerEvent::StopRequested | WorkerEvent::ConnectionLost => {
            state.stopped = true;
            WorkerAction::Stop
        },
        WorkerEvent::Other => WorkerAction::Nothing,
    }
}

/// Once the loop has stopped it stays stopped and answers every event
/// with `Stop`; and a cancel never stops a generation of a task other than
/// the active one.
pub proof fn lemma_worker_loop_laws(v: WorkerView, e: WorkerEvent)
    ensures
        v.stopped ==> worker_step_spec(v, e) == (v, ActionView::Stop),
        e matches WorkerEvent::Cancel { task_id } ==> (worker_step_spec(v, e).1 is StopGeneration
            ==> v.active_task == Some(task_id@)),
        e matches WorkerEvent::Cancel { .. } ==> worker_step_spec(v, e).0 == v,
{
}

/// Whether `id` is among the task ids.
pub open spec fn holds_id(ids: Seq<String>, id: Seq<char>) -> bool {
    exists|i: int| 0 <= i < ids.len() && (#[trigger] ids[i])@ == id
}

/// The tasks whose cancellation the server asked for, as the streaming
/// worker keeps them: a cancel is remembered whether or not the task is
/// running yet, the task's stream stops as soon as it sees its id here, and
/// the id is forgotten once the task has sent its last chunk.
pub struct CancelSet {
    ids: Vec<String>,
}

impl CancelSet {
    /// The set of task ids, by their characters.
    pub closed spec fn has(&self, id: Seq<char>) -> bool {
        holds_id(self.ids@, id)
    }

    /// No cancellation recorded.
    pub fn new() -> (r: Self)
        ensures
            forall|id: Seq<char>| !#[trigger] r.has(id),
    {
        CancelSet { ids: Vec::new() }
    }

    /// Records that the server asked to cancel `task_id`.
    pub fn cancel(&mut self, task_id: String)
        ensures
            forall|id: Seq<char>| #[trigger] final(self).has(id) <==> (old(self).has(id) || id == task_id@),
    {
        let ghost before = self.ids@;
        let ghost t = task_id@;
        self.ids.push(task_id);
        proof {
            assert forall|id: Seq<char>| #[trigger] holds_id(self.ids@, id) <==> (holds_id(before, id)
                || id == t) by {
                if holds_id(before, id) {
                    let i = choose|i: int| 0 <= i < before.len() && (#[trigger] before[i])@ == id;
                    assert(self.ids@[i] == before[i]);
                }
                if id == t {
                    assert(self.ids@[before.len() as int]@ == t);
                }
                if holds_id(self.ids@, id) {
                    let i = choose|i: int| 0 <= i < self.ids@.len() && (#[trigger] self.ids@[i])@ == id;
                    if i < before.len() {
                        assert(self.ids@[i] == before[i]);
                    }
                }
            }
        }
    }

    /// Whether the stream of `task_id` must stop.
    pub fn is_cancelled(&self, task_id: &str) -> (r: bool)
        ensures
            r == self.has(task_id@),
    {
        let t = str_chars(task_id);
        let mut i: usize = 0;
        while i < self.ids.len()
            invariant
                i <= self.ids@.len(),
                t@ == task_id@,
                forall|j: int| 0 <= j < i ==> (#[trigger] self.ids@[j])@ != task_id@,
            decreases self.ids@.len() - i,
        {
            if chars_equal(str_chars(self.ids[i].as_str()).as_slice(), t.as_slice()) {
                return true;
            }
            i = i + 1;
        }
        false
    }

    /// Forgets `task_id` once its stream has ended.
    pub fn finish(&mut self, task_id: &str)
        ensures
            forall|id: Seq<char>| #[trigger] final(self).has(id) <==> (old(self).has(id) && id != task_id@),
    {
        let t = str_chars(task_id);
        let mut kept: Vec<String> = Vec::new();
        let mut i: usize = 0;
        let ghost orig = self.ids@;
        while i < self.ids.len()
            invariant
                i <= orig.len(),
                self.ids@ == orig,
                t@ == task_id@,
                forall|id: Seq<char>| #[trigger] holds_id(kept@, id) <==> (holds_id(orig.take(i as int), id)
                    && id != task_id@),
            decreases orig.len() - i,
        {
            let ghost before = kept@;
            let same = chars_equal(str_chars(self.ids[i].as_str()).as_slice(), t.as_slice());
            if !same {
                kept.push(self.ids[i].clone());
            }
            proof {
                let tk = orig.take(i + 1);
                assert(tk.drop_last() =~= orig.take(i as int));
                assert forall|id: Seq<char>| #[trigger] holds_id(kept@, id) <==> (holds_id(tk, id)
                    && id != task_id@) by {
                    if holds_id(tk, id) {
                        let a = choose|a: int| 0 <= a < tk.len() && (#[trigger] tk[a])@ == id;
                        if a < i {
                            assert(orig.take(i as int)[a] == tk[a]);
                        }
                    }
                    if holds_id(orig.take(i as int), id) {
                        let a = choose|a: int| 0 <= a < orig.take(i as int).len() && (#[trigger] orig.take(i as int)[a])@ == id;
                        assert(tk[a] == orig.take(i as int)[a]);
                    }
                    if holds_id(kept@, id) {
                        let a = choose|a: int| 0 <= a < kept@.len() && (#[trigger] kept@[a])@ == id;
                        if a < before.len() {
                            assert(kept@[a] == before[a]);
                        } else {
                            assert(tk[i as int] == orig[i as int]);
                        }
                    }
                    if !same && id == orig[i as int]@ {
                        assert(kept@[before.len() as int]@ == id);
                    }
                    if holds_id(before, id) {
                        let a = choose|a: int| 0 <= a < before.len() && (#[trigger] before[a])@ == id;
                        assert(kept@[a] == before[a]);
                    }
                }
            }
            i = i + 1;
        }
        proof {
            assert(orig.take(i as int) =~= orig);
        }
        self.ids = kept;
    }
}

/// Why the background tasks cannot start.
#[derive(Debug, Clone, Copy, PartialEq, Eq, Structural)]
pub enum StartError {
    /// There is no connection to the server yet.
    NotConnected,
    /// The stop signal already exists: the tasks were started before.
    AlreadyStarted,
}

/// Whether the background tasks may start: a connection must exist and the
/// tasks must not have been started before.
pub fn start_tasks_check(has_stream: bool, stop_signal_exists: bool) -> (r: Result<(), StartError>)
    ensures
        r is Ok <==> (has_stream && !stop_signal_exists),
        !has_stream ==> r == Err::<(), StartError>(StartError::NotConnected),
        has_stream && stop_signal_exists ==> r == Err::<(), StartError>(StartError::AlreadyStarted),
{
    if !has_stream {
        Err(StartError::NotConnected)
    } else if stop_signal_exists {
        Err(StartError::AlreadyStarted)
    } else {
        Ok(())
    }
}

} // verus!
