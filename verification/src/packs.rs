//! Pack uploads, as decisions.
//!
//! An upload is a run of events: a part of the multipart body begins, a
//! chunk of the current part arrives, the body ends, or the destination
//! cannot be written. For each event [`upload_step`] names the one thing to
//! do. Every part of one upload goes to the same destination, and each
//! creates it anew, so a later part replaces what an earlier one wrote.
//! The destination is `./packs/` followed by the name as given; the name is
//! not inspected.

use vstd::prelude::*;
use vstd::string::StringExecFns;

verus! {

/// What happened next during an upload.
#[derive(Debug, PartialEq, Eq)]
pub enum UploadEvent {
    /// A new part of the body begins.
    Part,
    /// A chunk of the current part arrived.
    Chunk(Vec<u8>),
    /// The body is complete.
    End,
    /// Creating or writing the destination failed.
    Failed,
}

/// What to do about an event.
#[derive(Debug, PartialEq, Eq)]
pub enum UploadAction {
    /// Create the file at this path, emptying it if it exists.
    Create(String),
    /// Write these bytes at the end of the file.
    Append(Vec<u8>),
    /// Answer 200 with an empty body.
    Finish,
    /// Answer with a server error; the service keeps running.
    Abort,
}

/// An upload event as a mathematical value.
pub enum EventView {
    Part,
    Chunk(Seq<u8>),
    End,
    Failed,
}

/// An upload action as a mathematical value.
pub enum ActionView {
    Create(Seq<char>),
    Append(Seq<u8>),
    Finish,
    Abort,
}

impl View for UploadEvent {
    type V = EventView;

    open spec fn view(&self) -> EventView {
        match self {
            UploadEvent::Part => EventView::Part,
            UploadEvent::Chunk(bytes) => EventView::Chunk(bytes@),
            UploadEvent::End => EventView::End,
            UploadEvent::Failed => EventView::Failed,
        }
    }
}

impl View for UploadAction {
    type V = ActionView;

    open spec fn view(&self) -> ActionView {
        match self {
            UploadAction::Create(path) => ActionView::Create(path@),
            UploadAction::Append(bytes) => ActionView::Append(bytes@),
            UploadAction::Finish => ActionView::Finish,
            UploadAction::Abort => ActionView::Abort,
        }
    }
}

/// Where the pack called `name` is stored.
pub open spec fn pack_path_spec(name: Seq<char>) -> Seq<char> {
    "./packs/"@ + name
}

/// The action that answers `event` during the upload of the pack `name`.
pub open spec fn action_for(name: Seq<char>, event: EventView) -> ActionView {
    match event {
        EventView::Part => ActionView::Create(pack_path_spec(name)),
        EventView::Chunk(bytes) => ActionView::Append(bytes),
        EventView::End => ActionView::Finish,
        EventView::Failed => ActionView::Abort,
    }
}

/// The destination after `action` was carried out on it. `None` stands for a
/// destination that was never created; appending to it writes nothing.
pub open spec fn performed(file: Option<Seq<u8>>, action: ActionView) -> Option<Seq<u8>> {
    match action {
        ActionView::Create(_) => Some(Seq::empty()),
        ActionView::Append(bytes) => match file {
            Some(held) => Some(held + bytes),
            None => None,
        },
        ActionView::Finish => file,
        ActionView::Abort => file,
    }
}

/// The destination after the action for each of `events` was carried out in
/// turn, starting from `file`.
pub open spec fn uploaded(file: Option<Seq<u8>>, name: Seq<char>, events: Seq<EventView>) -> Option<
    Seq<u8>,
>
    decreases events.len(),
{
    if events.len() == 0 {
        file
    } else {
        performed(uploaded(file, name, events.drop_last()), action_for(name, events.last()))
    }
}

/// The chunks laid end to end, in arrival order.
pub open spec fn joined(chunks: Seq<Seq<u8>>) -> Seq<u8>
    decreases chunks.len(),
{
    if chunks.len() == 0 {
        Seq::empty()
    } else {
        joined(chunks.drop_last()) + chunks.last()
    }
}

/// The events of a run of chunks, in order.
pub open spec fn chunk_events(chunks: Seq<Seq<u8>>) -> Seq<EventView> {
    chunks.map_values(|bytes: Seq<u8>| EventView::Chunk(bytes))
}

/// Where the pack called `name` is stored: `./packs/` and the name.
pub fn pack_path(name: &str) -> (r: String)
    ensures
        r@ == pack_path_spec(name@),
{
    let mut path = String::from_str("./packs/");
    path.append(name);
    path
}

/// Names what to do about `event` during the upload of the pack `name`: a
/// new part creates the destination afresh, a chunk is appended to it, the
/// end of the body is answered with success, and a failed write with a
/// server error.
pub fn upload_step(name: &str, event: UploadEvent) -> (r: UploadAction)
    ensures
        r@ == action_for(name@, event@),
{
    match event {
        UploadEvent::Part => UploadAction::Create(pack_path(name)),
        UploadEvent::Chunk(bytes) => UploadAction::Append(bytes),
        UploadEvent::End => UploadAction::Finish,
        UploadEvent::Failed => UploadAction::Abort,
    }
}

/// Once a part has begun, the destination holds the chunks that arrived
/// since, in arrival order, and nothing of what was there or was written
/// before.
pub proof fn lemma_last_part_wins(
    file: Option<Seq<u8>>,
    name: Seq<char>,
    earlier: Seq<EventView>,
    chunks: Seq<Seq<u8>>,
)
    ensures
        uploaded(file, name, earlier.push(EventView::Part) + chunk_events(chunks)) == Some(
            joined(chunks),
        ),
    decreases chunks.len(),
{
    let events = earlier.push(EventView::Part) + chunk_events(chunks);
    if chunks.len() == 0 {
        assert(events.drop_last() =~= earlier);
    } else {
        lemma_last_part_wins(file, name, earlier, chunks.drop_last());
        assert(events.drop_last() =~= earlier.push(EventView::Part) + chunk_events(
            chunks.drop_last(),
        ));
        assert(events.last() == EventView::Chunk(chunks.last()));
    }
}

} // verus!
