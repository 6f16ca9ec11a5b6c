//! Directed reads: where Spanner serves a read-only query from.
//!
//! A value is a mode, optionally a list of replica selections, and optionally a flag:
//!
//! ```text
//! <mode> [ ":" <selection> ("," <selection>)* ] [ ";auto_failover_disabled" ]
//! ```
//!
//! The mode is `include` or `exclude`; a selection is `<location>`, `<location>:<type>` or
//! `:<type>`, with a type of `read_write`, `read_only` or `any`. The flag goes with `include` only.

use vstd::prelude::*;

use crate::error::{invalid_argument, Error, Status};
use crate::keys::OPTION_DIRECTED_READ;
use crate::options::{non_empty, plain_text, string_option, text_of, unless_empty, OptionValue};
use crate::request::{as_deref, sets, shows, to_owned_option};
use crate::text::{
    after, before, debug_quoted, debug_text, eq_str, pieces, split_on, split_once, texts, trim,
    trimmed,
};

verus! {

/// The kind of a replica.
#[derive(Debug, Clone, Copy, PartialEq, Eq, Structural)]
pub enum ReplicaType {
    ReadWrite,
    ReadOnly,
    Any,
}

/// Replicas by their location, their kind or both.
#[derive(Debug)]
pub struct ReplicaSelection {
    pub location: Option<String>,
    pub replica: ReplicaType,
}

/// Which replicas to read from.
#[derive(Debug)]
pub struct ReplicaChoice {
    /// Whether the selections are tried in turn, rather than routed around.
    pub preferred: bool,
    pub selections: Vec<ReplicaSelection>,
    /// Whether a read fails where the selected replicas are unavailable.
    pub auto_failover_disabled: bool,
}

#[verifier::ext_equal]
pub struct SelectionView {
    pub location: Option<Seq<char>>,
    pub replica: ReplicaType,
}

#[verifier::ext_equal]
pub struct ChoiceView {
    pub preferred: bool,
    pub selections: Seq<SelectionView>,
    pub auto_failover_disabled: bool,
}

impl View for ReplicaSelection {
    type V = SelectionView;

    open spec fn view(&self) -> SelectionView {
        SelectionView { location: text_of(self.location), replica: self.replica }
    }
}

impl View for ReplicaChoice {
    type V = ChoiceView;

    open spec fn view(&self) -> ChoiceView {
        ChoiceView {
            preferred: self.preferred,
            selections: self.selections@.map_values(|s: ReplicaSelection| s@),
            auto_failover_disabled: self.auto_failover_disabled,
        }
    }
}

// ---------------------------------------------------------------------------------------------
// The grammar
// ---------------------------------------------------------------------------------------------

pub open spec fn replica_type(s: Seq<char>) -> Option<ReplicaType> {
    if s == "read_write"@ {
        Some(ReplicaType::ReadWrite)
    } else if s == "read_only"@ {
        Some(ReplicaType::ReadOnly)
    } else if s == "any"@ {
        Some(ReplicaType::Any)
    } else {
        None
    }
}

/// The selection that `s` writes.
pub open spec fn selection(s: Seq<char>) -> Option<SelectionView> {
    if !s.contains(':') {
        if s.len() == 0 {
            None
        } else {
            Some(SelectionView { location: Some(s), replica: ReplicaType::Any })
        }
    } else {
        match replica_type(after(s, ':')) {
            Some(replica) => Some(
                SelectionView { location: unless_empty(before(s, ':')), replica },
            ),
            None => None,
        }
    }
}

/// The selections that a list writes, if every member is one.
pub open spec fn selections(list: Seq<Seq<char>>) -> Option<Seq<SelectionView>> {
    if forall|i: int| 0 <= i < list.len() ==> selection(#[trigger] list[i]) is Some {
        Some(list.map_values(|s: Seq<char>| selection(s)->Some_0))
    } else {
        None
    }
}

/// The choice of replicas that `value` writes.
pub open spec fn choice(value: Seq<char>) -> Option<ChoiceView> {
    let flagged = value.contains(';');
    let head = if flagged {
        before(value, ';')
    } else {
        value
    };
    let mode = if head.contains(':') {
        before(head, ':')
    } else {
        head
    };
    let chosen = if head.contains(':') {
        selections(pieces(after(head, ':'), ','))
    } else {
        Some(Seq::empty())
    };
    if flagged && after(value, ';') != "auto_failover_disabled"@ {
        None
    } else if chosen is None {
        None
    } else if mode == "include"@ {
        Some(
            ChoiceView {
                preferred: true,
                selections: chosen->Some_0,
                auto_failover_disabled: flagged,
            },
        )
    } else if mode == "exclude"@ && !flagged {
        Some(
            ChoiceView {
                preferred: false,
                selections: chosen->Some_0,
                auto_failover_disabled: false,
            },
        )
    } else {
        None
    }
}

pub const GRAMMAR: &'static str = "\"<include|exclude>[:<selection>[,<selection>]...][;auto_failover_disabled]\", where a selection is <location>, <location>:<type> or :<type>, a type is read_write, read_only or any, and the flag goes with include only";

pub open spec fn bad_choice_message(value: Seq<char>) -> Seq<char> {
    "option "@ + OPTION_DIRECTED_READ@ + ": "@ + debug_text(value)
        + " is not a valid directed read; expected "@ + GRAMMAR@
}

fn parse_replica_type(s: &str) -> (r: Option<ReplicaType>)
    ensures
        r == replica_type(s@),
{
    proof {
        reveal_strlit("read_write");
        reveal_strlit("read_only");
        reveal_strlit("any");
    }
    if eq_str(s, "read_write") {
        Some(ReplicaType::ReadWrite)
    } else if eq_str(s, "read_only") {
        Some(ReplicaType::ReadOnly)
    } else if eq_str(s, "any") {
        Some(ReplicaType::Any)
    } else {
        None
    }
}

fn parse_selection(s: &str) -> (r: Option<ReplicaSelection>)
    ensures
        match r {
            Some(found) => selection(s@) == Some(found@),
            None => selection(s@) is None,
        },
{
    match split_once(s, ':') {
        Some((location, kind)) => match parse_replica_type(kind.as_str()) {
            Some(replica) => Some(ReplicaSelection { location: non_empty(location), replica }),
            None => None,
        },
        None => {
            if s.is_empty() {
                None
            } else {
                Some(ReplicaSelection { location: Some(s.to_owned()), replica: ReplicaType::Any })
            }
        },
    }
}

fn parse_selections(s: &str) -> (r: Option<Vec<ReplicaSelection>>)
    ensures
        match r {
            Some(found) => selections(pieces(s@, ',')) == Some(
                found@.map_values(|s: ReplicaSelection| s@),
            ),
            None => selections(pieces(s@, ',')) is None,
        },
{
    let list = split_on(s, ',');
    let ghost parts = pieces(s@, ',');
    let mut found: Vec<ReplicaSelection> = Vec::new();
    let mut i: usize = 0;
    while i < list.len()
        invariant
            i <= list@.len(),
            texts(list@) == parts,
            parts == pieces(s@, ','),
            found@.len() == i,
            forall|k: int| 0 <= k < i ==> selection(#[trigger] parts[k]) == Some(found@[k]@),
        decreases list@.len() - i,
    {
        assert(parts[i as int] == list@[i as int]@);
        match parse_selection(list[i].as_str()) {
            Some(next) => {
                found.push(next);
            },
            None => {
                assert(selection(parts[i as int]) is None);
                return None;
            },
        }
        i = i + 1;
    }
    assert(selections(parts)->Some_0 =~= found@.map_values(|s: ReplicaSelection| s@));
    Some(found)
}

/// The choice of replicas that a text writes, if it writes one.
pub fn parse_choice(value: &str) -> (r: Option<ReplicaChoice>)
    ensures
        match r {
            Some(found) => choice(value@) == Some(found@),
            None => choice(value@) is None,
        },
{
    proof {
        reveal_strlit("include");
        reveal_strlit("exclude");
        reveal_strlit("auto_failover_disabled");
    }
    let (head, flagged) = match split_once(value, ';') {
        Some((head, flag)) => {
            if !eq_str(flag.as_str(), "auto_failover_disabled") {
                return None;
            }
            (head, true)
        },
        None => (value.to_owned(), false),
    };
    let (mode, chosen) = match split_once(head.as_str(), ':') {
        Some((mode, list)) => match parse_selections(list.as_str()) {
            Some(chosen) => (mode, chosen),
            None => {
                return None;
            },
        },
        None => (head, Vec::new()),
    };
    assert(Seq::<ReplicaSelection>::empty().map_values(|s: ReplicaSelection| s@)
        =~= Seq::<SelectionView>::empty());
    if eq_str(mode.as_str(), "include") {
        Some(
            ReplicaChoice { preferred: true, selections: chosen, auto_failover_disabled: flagged },
        )
    } else if eq_str(mode.as_str(), "exclude") && !flagged {
        Some(ReplicaChoice { preferred: false, selections: chosen, auto_failover_disabled: false })
    } else {
        None
    }
}

/// Reads a choice of replicas. What the grammar does not admit is an invalid argument.
pub fn parse(value: &str) -> (r: Result<ReplicaChoice, Error>)
    ensures
        match choice(value@) {
            Some(chosen) => r is Ok && r->Ok_0@ == chosen,
            None => r is Err && r->Err_0.says(
                Status::InvalidArguments,
                bad_choice_message(value@),
            ),
        },
{
    match parse_choice(value) {
        Some(found) => Ok(found),
        None => {
            let mut message = "option ".to_owned();
            message.append(OPTION_DIRECTED_READ);
            message.append(": ");
            message.append(debug_quoted(value).as_str());
            message.append(" is not a valid directed read; expected ");
            message.append(GRAMMAR);
            Err(invalid_argument(message))
        },
    }
}

/// Failover is only ever disabled for a list of preferences.
pub proof fn lemma_failover_is_disabled_for_preferences_only(value: Seq<char>)
    requires
        choice(value) is Some,
    ensures
        choice(value)->Some_0.auto_failover_disabled ==> choice(value)->Some_0.preferred,
{
}

// ---------------------------------------------------------------------------------------------
// The option
// ---------------------------------------------------------------------------------------------

/// The directed read of a connection or a statement: the text it was set with, trimmed, beside the
/// choice it writes.
#[derive(Debug)]
pub struct DirectedRead {
    pub raw: Option<String>,
    pub choice: Option<ReplicaChoice>,
}

#[verifier::ext_equal]
pub struct DirectedReadView {
    pub raw: Option<Seq<char>>,
    pub choice: Option<ChoiceView>,
}

impl View for DirectedRead {
    type V = DirectedReadView;

    open spec fn view(&self) -> DirectedReadView {
        DirectedReadView {
            raw: text_of(self.raw),
            choice: match self.choice {
                Some(c) => Some(c@),
                None => None,
            },
        }
    }
}

/// The setting that `value` makes.
pub open spec fn directed_read_after(value: OptionValue) -> Result<DirectedReadView, Seq<char>> {
    match plain_text(value, "option "@ + OPTION_DIRECTED_READ@) {
        Err(m) => Err(m),
        Ok(s) => if trimmed(s).len() == 0 {
            Ok(DirectedReadView { raw: None, choice: None })
        } else {
            match choice(trimmed(s)) {
                Some(c) => Ok(DirectedReadView { raw: Some(trimmed(s)), choice: Some(c) }),
                None => Err(bad_choice_message(trimmed(s))),
            }
        },
    }
}

impl Clone for ReplicaSelection {
    fn clone(&self) -> (r: ReplicaSelection)
        ensures
            r@ == self@,
    {
        ReplicaSelection {
            location: to_owned_option(as_deref(&self.location)),
            replica: self.replica,
        }
    }
}

impl Clone for ReplicaChoice {
    fn clone(&self) -> (r: ReplicaChoice)
        ensures
            r@ == self@,
    {
        let mut selections: Vec<ReplicaSelection> = Vec::new();
        let mut i: usize = 0;
        while i < self.selections.len()
            invariant
                i <= self.selections@.len(),
                selections@.len() == i,
                forall|k: int| 0 <= k < i ==> (#[trigger] selections@[k])@ == self.selections@[k]@,
            decreases self.selections@.len() - i,
        {
            selections.push(self.selections[i].clone());
            i = i + 1;
        }
        let r = ReplicaChoice {
            preferred: self.preferred,
            selections,
            auto_failover_disabled: self.auto_failover_disabled,
        };
        assert(r@.selections =~= self@.selections);
        r
    }
}

impl Clone for DirectedRead {
    fn clone(&self) -> (r: DirectedRead)
        ensures
            r@ == self@,
    {
        let choice = match &self.choice {
            Some(c) => Some(c.clone()),
            None => None,
        };
        DirectedRead { raw: to_owned_option(as_deref(&self.raw)), choice }
    }
}

impl DirectedRead {
    /// Spanner's own routing.
    pub fn new() -> (r: DirectedRead)
        ensures
            r@ == (DirectedReadView { raw: None, choice: None }),
    {
        DirectedRead { raw: None, choice: None }
    }

    /// Sets the option. The empty string unsets it; a rejected value changes nothing.
    pub fn set(&mut self, value: OptionValue) -> (r: Result<(), Error>)
        ensures
            sets(r, old(self)@, final(self)@, directed_read_after(value)),
    {
        let mut what = "option ".to_owned();
        what.append(OPTION_DIRECTED_READ);
        match string_option(value, what.as_str()) {
            Ok(s) => {
                let text = trim(s.as_str());
                if text.as_str().is_empty() {
                    self.raw = None;
                    self.choice = None;
                    return Ok(());
                }
                match parse(text.as_str()) {
                    Ok(c) => {
                        self.raw = Some(text);
                        self.choice = Some(c);
                        Ok(())
                    },
                    Err(e) => Err(e),
                }
            },
            Err(e) => Err(e),
        }
    }

    /// The text the option was set with, trimmed.
    pub fn option_string(&self) -> (r: Option<&str>)
        ensures
            shows(r, self@.raw),
    {
        as_deref(&self.raw)
    }
}

} // verus!
