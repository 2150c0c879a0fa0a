//! The diagnostic data model shared by all scanners: a location in a source
//! file, a message pointing at zero or more locations, and a report holding
//! the messages of one scan in log order.

use vstd::prelude::*;

verus! {

/// Mathematical value of a [`Location`].
#[verifier::ext_equal]
pub struct LocationView {
    pub path: Seq<char>,
    pub row: int,
    pub col: int,
}

/// Mathematical value of a [`Message`].
#[verifier::ext_equal]
pub struct MessageView {
    pub error: Seq<char>,
    pub locations: Seq<LocationView>,
}

/// A single point in a source file. `row` and `col` are 1-based where the log
/// supplied them; 0 stands for "unknown", never for a valid position.
#[derive(Debug, Clone, PartialEq, Eq)]
pub struct Location {
    pub path: String,
    pub row: usize,
    pub col: usize,
}

/// One diagnostic: the message text and the source locations it points at,
/// in the order they were found (innermost stack frame first). The list may
/// be empty when no location could be extracted.
#[derive(Debug, Clone, PartialEq, Eq)]
pub struct Message {
    pub error: String,
    pub locations: Vec<Location>,
}

/// The ordered result of one scan. Message order is log-appearance order and
/// duplicates are kept; an empty list means "no diagnostics found".
#[derive(Debug, Clone, PartialEq, Eq)]
pub struct AnalyseReport {
    pub errors: Vec<Message>,
}

/// The mathematical value of a list of messages.
pub open spec fn report_view(v: Seq<Message>) -> Seq<MessageView> {
    v.map_values(|m: Message| m@)
}

/// The mathematical value of a list of locations.
pub open spec fn locs_view(v: Seq<Location>) -> Seq<LocationView> {
    v.map_values(|l: Location| l@)
}

impl View for Location {
    type V = LocationView;

    open spec fn view(&self) -> LocationView {
        LocationView { path: self.path@, row: self.row as int, col: self.col as int }
    }
}

impl View for Message {
    type V = MessageView;

    open spec fn view(&self) -> MessageView {
        MessageView {
            error: self.error@,
            locations: self.locations@.map_values(|l: Location| l@),
        }
    }
}

impl View for AnalyseReport {
    type V = Seq<MessageView>;

    open spec fn view(&self) -> Seq<MessageView> {
        self.errors@.map_values(|m: Message| m@)
    }
}

} // verus!
