//! The directory watch manager: which watches exist, which paths of a raw
//! filesystem event pass a watch's extension filter, and which typed events
//! they turn into.
//!
//! Installing the watch with the operating system and reading changed files
//! are the caller's work. The callback of a watch hands each raw event to
//! `watch_steps` and carries out the steps that come back.

use crate::event::{WatchEvent, WatchEventView};
use crate::registry::{Registry, RegistryState};
use crate::text::text_of;
use vstd::prelude::*;

verus! {

/// What `str::to_lowercase` of the standard library returns for `text`.
pub uninterp spec fn lowercase(text: Seq<char>) -> Seq<char>;

/// What `Path::extension` of the standard library returns for the path
/// written as `path`, as the library's target platform reads paths.
pub uninterp spec fn extension(path: Seq<char>) -> Option<Seq<char>>;

/// `str::to_lowercase` of the standard library: the lower-case form of
/// `text` by the Unicode rules. The contract only gives the result its name.
#[verifier::external_body]
fn to_lowercase(text: &str) -> (lower: String)
    ensures
        lower@ == lowercase(text@),
{
    text.to_lowercase()
}

/// `Path::extension` of the standard library on the path written as `path`:
/// the part of the final component after its last dot, where there is one.
/// A path given as text has an extension that is text too. The contract
/// only gives the result its name.
#[verifier::external_body]
fn extension_of(path: &str) -> (found: Option<String>)
    ensures
        text_of(found) == extension(path@),
{
    match std::path::Path::new(path).extension() {
        Some(found) => Some(found.to_string_lossy().into_owned()),
        None => None,
    }
}

/// The extensions that a watch lets through, in lower case. Without any, it
/// lets every path through.
#[derive(Clone, Debug, PartialEq, Eq)]
pub struct ExtensionFilter {
    extensions: Vec<String>,
}

impl View for ExtensionFilter {
    type V = Seq<Seq<char>>;

    closed spec fn view(&self) -> Seq<Seq<char>> {
        self.extensions@.map_values(|extension: String| extension@)
    }
}

/// The filter for the extensions that a caller names: each in lower case,
/// so that matching ignores case.
pub open spec fn normalized(extensions: Seq<Seq<char>>) -> Seq<Seq<char>> {
    extensions.map_values(|extension: Seq<char>| lowercase(extension))
}

/// Whether a filter lets through a path whose extension, in lower case, is
/// `extension`: an empty filter lets everything through, any other filter
/// only a path with an extension that it lists.
pub open spec fn admits(filter: Seq<Seq<char>>, extension: Option<Seq<char>>) -> bool {
    filter.len() == 0 || (extension is Some && filter.contains(extension->0))
}

/// The extension of `path` in lower case.
pub open spec fn lowered_extension(path: Seq<char>) -> Option<Seq<char>> {
    match extension(path) {
        Some(found) => Some(lowercase(found)),
        None => None,
    }
}

/// Whether a filter lets `path` through.
pub open spec fn passes(filter: Seq<Seq<char>>, path: Seq<char>) -> bool {
    admits(filter, lowered_extension(path))
}

impl ExtensionFilter {
    /// The filter for `extensions`.
    pub fn new(extensions: &Vec<String>) -> (filter: Self)
        ensures
            filter@ == normalized(extensions@.map_values(|extension: String| extension@)),
    {
        let ghost named = extensions@.map_values(|extension: String| extension@);
        let mut lowered: Vec<String> = Vec::new();
        let mut i: usize = 0;
        while i < extensions.len()
            invariant
                i <= extensions.len(),
                named == extensions@.map_values(|extension: String| extension@),
                lowered@.map_values(|extension: String| extension@) == normalized(
                    named.take(i as int),
                ),
            decreases extensions.len() - i,
        {
            let lower = to_lowercase(extensions[i].as_str());
            let ghost before = lowered@.map_values(|extension: String| extension@);
            lowered.push(lower);
            proof {
                assert(named[i as int] == extensions@[i as int]@);
                assert(lowered@.map_values(|extension: String| extension@) =~= before.push(
                    lower@,
                ));
                assert(named.take(i as int + 1) =~= named.take(i as int).push(named[i as int]));
                assert(normalized(named.take(i as int + 1)) =~= normalized(
                    named.take(i as int),
                ).push(lowercase(named[i as int])));
            }
            i = i + 1;
        }
        assert(named.take(i as int) =~= named);
        ExtensionFilter { extensions: lowered }
    }

    /// Whether the filter lets everything through.
    pub fn is_empty(&self) -> (empty: bool)
        ensures
            empty == (self@.len() == 0),
    {
        self.extensions.len() == 0
    }

    /// Whether the filter lets through a path whose extension, already in
    /// lower case, is `extension`.
    pub fn admits(&self, extension: Option<&String>) -> (admitted: bool)
        ensures
            admitted == admits(
                self@,
                match extension {
                    Some(found) => Some(found@),
                    None => None,
                },
            ),
    {
        if self.extensions.len() == 0 {
            return true;
        }
        match extension {
            None => false,
            Some(found) => {
                let mut i: usize = 0;
                while i < self.extensions.len()
                    invariant
                        i <= self.extensions.len(),
                        extension == Some(found),
                        forall|k: int| 0 <= k < i ==> self@[k] != found@,
                    decreases self.extensions.len() - i,
                {
                    if self.extensions[i] == *found {
                        assert(self@[i as int] == found@);
                        assert(self@.contains(found@));
                        return true;
                    }
                    i = i + 1;
                }
                false
            },
        }
    }

    /// Whether the filter lets `path` through.
    pub fn passes(&self, path: &str) -> (passed: bool)
        ensures
            passed == passes(self@, path@),
    {
        if self.extensions.len() == 0 {
            return true;
        }
        match extension_of(path) {
            None => false,
            Some(found) => {
                let lower = to_lowercase(found.as_str());
                self.admits(Some(&lower))
            },
        }
    }
}

/// What a raw filesystem event reports to have happened.
#[derive(Clone, Copy, Debug, PartialEq, Eq, Structural)]
pub enum ChangeKind {
    Create,
    Modify,
    Remove,
    /// An access, or anything that is none of the above.
    Other,
}

/// A raw filesystem event: what happened, and the paths it happened to.
#[derive(Clone, Debug, PartialEq, Eq)]
pub struct RawEvent {
    pub kind: ChangeKind,
    pub paths: Vec<String>,
}

/// A `RawEvent` as a mathematical value.
pub struct RawEventView {
    pub kind: ChangeKind,
    pub paths: Seq<Seq<char>>,
}

impl View for RawEvent {
    type V = RawEventView;

    open spec fn view(&self) -> RawEventView {
        RawEventView { kind: self.kind, paths: self.paths@.map_values(|path: String| path@) }
    }
}

/// What the callback of a watch does for one path.
#[derive(Clone, Debug, PartialEq, Eq)]
pub enum WatchStep {
    /// Emit this event.
    Emit(WatchEvent),
    /// Read the text of the file at `path`, then emit what `changed_event`
    /// makes of it.
    ReadThenEmit { path: String },
}

/// A `WatchStep` as a mathematical value.
pub enum WatchStepView {
    Emit(WatchEventView),
    ReadThenEmit { path: Seq<char> },
}

impl View for WatchStep {
    type V = WatchStepView;

    open spec fn view(&self) -> WatchStepView {
        match self {
            WatchStep::Emit(event) => WatchStepView::Emit(event@),
            WatchStep::ReadThenEmit { path } => WatchStepView::ReadThenEmit { path: path@ },
        }
    }
}

/// The step for one path that passed the filter: a creation and a removal
/// are emitted as they are; a modification is emitted with the file's text,
/// which has to be read first. This is for kinds other than `Other`.
pub open spec fn step_for(kind: ChangeKind, path: Seq<char>) -> WatchStepView {
    match kind {
        ChangeKind::Create => WatchStepView::Emit(WatchEventView::Created { path }),
        ChangeKind::Remove => WatchStepView::Emit(WatchEventView::Removed { path }),
        _ => WatchStepView::ReadThenEmit { path },
    }
}

/// The steps for a raw event: one for each of its paths that passes the
/// filter, in the order of the paths. An event of kind `Other`, or one none
/// of whose paths passes, gives no step: it is dropped.
pub open spec fn steps_for(filter: Seq<Seq<char>>, event: RawEventView) -> Seq<WatchStepView> {
    if event.kind is Other {
        Seq::empty()
    } else {
        event.paths.filter(|path: Seq<char>| passes(filter, path)).map_values(
            |path: Seq<char>| step_for(event.kind, path),
        )
    }
}

/// The steps for what the operating system reported: those of the raw
/// event, or, for an error of the watch itself, the emission of that error.
pub open spec fn steps_for_report(
    filter: Seq<Seq<char>>,
    report: Result<RawEventView, Seq<char>>,
) -> Seq<WatchStepView> {
    match report {
        Ok(event) => steps_for(filter, event),
        Err(message) => seq![WatchStepView::Emit(WatchEventView::Error { message })],
    }
}

/// The views of a vector of steps.
pub open spec fn steps_of(steps: Vec<WatchStep>) -> Seq<WatchStepView> {
    steps@.map_values(|step: WatchStep| step@)
}

/// The view of what the operating system reported.
pub open spec fn report_of(report: Result<RawEvent, String>) -> Result<RawEventView, Seq<char>> {
    match report {
        Ok(event) => Ok(event@),
        Err(message) => Err(message@),
    }
}

/// Decides what the callback of a watch does for one report of the
/// operating system. An error of the watch is emitted and the watch goes
/// on.
pub fn watch_steps(filter: &ExtensionFilter, report: Result<RawEvent, String>) -> (steps: Vec<
    WatchStep,
>)
    ensures
        steps_of(steps) == steps_for_report(filter@, report_of(report)),
{
    let mut steps: Vec<WatchStep> = Vec::new();
    match report {
        Err(message) => {
            steps.push(WatchStep::Emit(WatchEvent::Error { message }));
            assert(steps_of(steps) =~= seq![
                WatchStepView::Emit(WatchEventView::Error { message: message@ }),
            ]);
        },
        Ok(event) => {
            let kind = event.kind;
            if kind == ChangeKind::Other {
                assert(steps_of(steps) =~= Seq::<WatchStepView>::empty());
                return steps;
            }
            let ghost paths = event@.paths;
            let ghost passing = |path: Seq<char>| passes(filter@, path);
            let ghost as_step = |path: Seq<char>| step_for(kind, path);
            let mut i: usize = 0;
            assert(paths.take(0).filter(passing).map_values(as_step) =~= steps_of(steps)) by {
                reveal(Seq::filter);
            }
            while i < event.paths.len()
                invariant
                    i <= event.paths.len(),
                    !(kind is Other),
                    paths == event.paths@.map_values(|path: String| path@),
                    passing == |path: Seq<char>| passes(filter@, path),
                    as_step == |path: Seq<char>| step_for(kind, path),
                    steps_of(steps) == paths.take(i as int).filter(passing).map_values(as_step),
                decreases event.paths.len() - i,
            {
                let path = &event.paths[i];
                let ghost before = steps_of(steps);
                proof {
                    reveal(Seq::filter);
                    assert(paths.take(i as int + 1).drop_last() =~= paths.take(i as int));
                    assert(paths.take(i as int + 1).last() == path@);
                }
                if filter.passes(path.as_str()) {
                    let step = match kind {
                        ChangeKind::Create => WatchStep::Emit(
                            WatchEvent::Created { path: path.clone() },
                        ),
                        ChangeKind::Remove => WatchStep::Emit(
                            WatchEvent::Removed { path: path.clone() },
                        ),
                        _ => WatchStep::ReadThenEmit { path: path.clone() },
                    };
                    assert(step@ == step_for(kind, path@));
                    steps.push(step);
                    assert(steps_of(steps) =~= before.push(step@));
                    assert(paths.take(i as int + 1).filter(passing).map_values(as_step)
                        =~= paths.take(i as int).filter(passing).map_values(as_step).push(
                        step_for(kind, path@),
                    ));
                }
                i = i + 1;
            }
            assert(paths.take(i as int) =~= paths);
        },
    }
    steps
}

/// The event for a modified file at `path`, given what reading its text
/// came to: `Changed` with the text, or with no text where the file could
/// not be read. A failed read is never an error.
pub fn changed_event(path: String, content: Option<String>) -> (event: WatchEvent)
    ensures
        event@ == (WatchEventView::Changed {
            path: path@,
            content: match content {
                Some(text) => text@,
                None => Seq::empty(),
            },
        }),
{
    let content = match content {
        Some(text) => text,
        None => String::new(),
    };
    WatchEvent::Changed { path, content }
}

/// Why a watch could not be set up: no session was registered.
#[derive(Clone, Debug, PartialEq, Eq)]
pub enum WatchError {
    /// The path does not exist or is no directory.
    NotADirectory { dir: String },
    /// The native watcher could not be created.
    CreateFailed { detail: String },
    /// The native watcher could not be put on the directory.
    WatchFailed { dir: String, detail: String },
}

impl WatchError {
    /// The words of the error.
    pub open spec fn message_text(self) -> Seq<char> {
        match self {
            WatchError::NotADirectory { dir } => "Not a directory: "@ + dir@,
            WatchError::CreateFailed { detail } => "Failed to create watcher: "@ + detail@,
            WatchError::WatchFailed { dir, detail } => "Failed to watch "@ + dir@ + ": "@
                + detail@,
        }
    }

    /// The error as the caller reports it.
    pub fn message(&self) -> (message: String)
        ensures
            message@ == self.message_text(),
    {
        match self {
            WatchError::NotADirectory { dir } => {
                let mut message = "Not a directory: ".to_owned();
                message.append(dir.as_str());
                message
            },
            WatchError::CreateFailed { detail } => {
                let mut message = "Failed to create watcher: ".to_owned();
                message.append(detail.as_str());
                message
            },
            WatchError::WatchFailed { dir, detail } => {
                let mut message = "Failed to watch ".to_owned();
                message.append(dir.as_str());
                message.append(": ");
                message.append(detail.as_str());
                message
            },
        }
    }
}

/// The first decision of a watch: a path that is no directory is refused
/// at once; for a directory, the filter to install is the named extensions
/// in lower case.
pub fn plan_watch(dir: &str, is_directory: bool, extensions: &Vec<String>) -> (plan: Result<
    ExtensionFilter,
    WatchError,
>)
    ensures
        match plan {
            Ok(filter) => is_directory && filter@ == normalized(
                extensions@.map_values(|extension: String| extension@),
            ),
            Err(error) => !is_directory && error is NotADirectory && error->NotADirectory_dir@
                == dir@,
        },
{
    if !is_directory {
        return Err(WatchError::NotADirectory { dir: dir.to_owned() });
    }
    Ok(ExtensionFilter::new(extensions))
}

/// A running watch: the native watcher, whose dropping ends the
/// subscription, and the filter that its callback applies.
pub struct WatchSession<W> {
    pub watcher: W,
    pub filter: ExtensionFilter,
}

/// The watches that are running, by identifier.
pub struct WatcherManager<W> {
    watchers: Registry<WatchSession<W>>,
}

impl<W> View for WatcherManager<W> {
    type V = RegistryState<WatchSession<W>>;

    closed spec fn view(&self) -> RegistryState<WatchSession<W>> {
        self.watchers@
    }
}

impl<W> WatcherManager<W> {
    /// The invariant that every operation keeps.
    pub open spec fn wf(&self) -> bool {
        self@.wf()
    }

    /// A manager without watches; its first watch gets the identifier 1.
    pub fn new() -> (manager: Self)
        ensures
            manager@ == RegistryState::<WatchSession<W>>::empty(),
            manager.wf(),
    {
        WatcherManager { watchers: Registry::new() }
    }

    /// Whether an identifier is left for one more watch.
    pub fn can_watch(&self) -> (left: bool)
        ensures
            left == self@.can_allocate(),
    {
        self.watchers.can_allocate()
    }

    /// The watch registered under `id`, if there is one.
    pub fn session(&self, id: u32) -> (found: Option<&WatchSession<W>>)
        ensures
            match found {
                Some(session) => self@.get(id) == Some(*session),
                None => self@.get(id) is None,
            },
    {
        self.watchers.get(id)
    }

    /// The number of watches running.
    pub fn len(&self) -> (count: usize)
        ensures
            count == self@.sessions.len(),
    {
        self.watchers.len()
    }
}

/// Registers the watch that was installed and returns its identifier: the
/// next one in line, never used before. A watch that could not be installed
/// is passed on as its error and leaves the registry as it was.
pub fn watch_directory<W>(
    state: &mut WatcherManager<W>,
    installed: Result<WatchSession<W>, WatchError>,
) -> (watched: Result<u32, WatchError>)
    requires
        old(state).wf(),
        installed is Ok ==> old(state)@.can_allocate(),
    ensures
        final(state).wf(),
        match installed {
            Ok(session) => watched == Ok::<u32, WatchError>(old(state)@.next_id())
                && !old(state)@.contains(old(state)@.next_id())
                && final(state)@ == old(state)@.register(session),
            Err(error) => watched == Err::<u32, WatchError>(error) && final(state)@ == old(state)@,
        },
{
    match installed {
        Ok(session) => {
            let id = state.watchers.allocate_id();
            let stored = state.watchers.insert(id, session);
            assert(stored is Ok);
            Ok(id)
        },
        Err(error) => Err(error),
    }
}

/// Takes the watch `id` out of the registry and hands it to the caller,
/// whose dropping it ends the subscription, so that its callback is not
/// called again. Where there is no such watch nothing happens.
pub fn unwatch_directory<W>(state: &mut WatcherManager<W>, id: u32) -> (removed: Option<
    WatchSession<W>,
>)
    requires
        old(state).wf(),
    ensures
        final(state).wf(),
        final(state)@ == old(state)@.remove(id),
        removed == old(state)@.get(id),
        !final(state)@.contains(id),
{
    state.watchers.remove(id)
}

/// Removing a watch that is not there changes nothing and hands nothing
/// back; removing one that is there hands it back, after which it is gone
/// and a second removal changes nothing.
pub proof fn law_unwatch<W>(state: RegistryState<WatchSession<W>>, id: u32)
    ensures
        !state.contains(id) ==> state.remove(id) == state && state.get(id) is None,
        state.contains(id) ==> state.get(id) is Some,
        !state.remove(id).contains(id),
        state.remove(id).remove(id) == state.remove(id),
{
    crate::registry::law_remove_is_idempotent(state, id);
}

/// With an empty filter every path of a created, modified or removed file
/// gets a step, in order; with any other filter a path without an
/// extension gets none.
pub proof fn law_filter_edges(filter: Seq<Seq<char>>, path: Seq<char>)
    ensures
        filter.len() == 0 ==> passes(filter, path),
        filter.len() > 0 && extension(path) is None ==> !passes(filter, path),
        filter.len() > 0 && extension(path) is Some ==> (passes(filter, path) <==> filter.contains(
            lowercase(extension(path)->0),
        )),
{
}

} // verus!
