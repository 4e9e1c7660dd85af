//! PULSE frames: the wire format between the browser and an AI agent.
//!
//! Affordances are written as compact frames; actions and their results as
//! one-line commands.
use vstd::prelude::*;
use crate::capability::cap_name;
use crate::semantic::{action_name, Affordance, ElementHandle};
use crate::text::{decimal, push_str, str_from, u64_decimal};

verus! {

/// A PULSE frame.
#[derive(Debug, Clone)]
pub enum Frame {
    /// Query: what can the AI do?
    AskAffordances { target: String },
    /// Response: here is what you can do.
    OkAffordances { affordances: Vec<AffordanceEntry> },
    /// Action: do something.
    DoAction { action: String, handle: u64 },
    /// Result: the action succeeded.
    OkAction { action: String, handle: u64, result: String },
    /// Mutation: the page changed.
    PageChanged { added: Vec<String>, removed: Vec<String> },
}

/// A single affordance entry in a PULSE response.
#[derive(Debug, Clone)]
pub struct AffordanceEntry {
    pub handle: u64,
    pub action: String,
    pub label: String,
    pub required_capability: String,
}

/// The content of an affordance entry.
pub struct EntryView {
    pub handle: u64,
    pub action: Seq<char>,
    pub label: Seq<char>,
    pub required_capability: Seq<char>,
}

impl View for AffordanceEntry {
    type V = EntryView;

    open spec fn view(&self) -> EntryView {
        EntryView {
            handle: self.handle,
            action: self.action@,
            label: self.label@,
            required_capability: self.required_capability@,
        }
    }
}

/// A node's handle with its label.
pub open spec fn labels_view(nodes: Seq<(ElementHandle, String)>) -> Seq<(ElementHandle, Seq<char>)> {
    nodes.map_values(|n: (ElementHandle, String)| (n.0, n.1@))
}

/// The label of the first node with handle `h`, or the empty string.
pub open spec fn label_of(nodes: Seq<(ElementHandle, Seq<char>)>, h: ElementHandle) -> Seq<char>
    decreases nodes.len(),
{
    if nodes.len() == 0 {
        Seq::empty()
    } else if nodes[0].0 == h {
        nodes[0].1
    } else {
        label_of(nodes.drop_first(), h)
    }
}

/// The entry describing an affordance.
pub open spec fn entry_of(a: Affordance, nodes: Seq<(ElementHandle, Seq<char>)>) -> EntryView {
    EntryView {
        handle: a.target.0,
        action: action_name(a.action),
        label: label_of(nodes, a.target),
        required_capability: cap_name(a.required_capability),
    }
}

/// The one-line form of an entry: `handle:action:capability "label"`.
pub open spec fn entry_line(e: EntryView) -> Seq<char> {
    decimal(e.handle as nat) + ":"@ + e.action + ":"@ + e.required_capability + " \""@ + e.label + "\""@
}

/// Lines joined with `, `.
pub open spec fn joined(lines: Seq<Seq<char>>) -> Seq<char>
    decreases lines.len(),
{
    if lines.len() == 0 {
        Seq::empty()
    } else if lines.len() == 1 {
        lines[0]
    } else {
        joined(lines.drop_last()) + ", "@ + lines.last()
    }
}

/// The affordance frame: `ok affordances [` then the entry lines joined
/// with `, `, then `]`.
pub open spec fn affordances_frame(affs: Seq<Affordance>, nodes: Seq<(ElementHandle, Seq<char>)>) -> Seq<char> {
    "ok affordances ["@ + joined(affs.map_values(|a: Affordance| entry_line(entry_of(a, nodes)))) + "]"@
}

/// The label of the first node with the given handle, or `""`.
pub fn find_label(nodes: &[(ElementHandle, String)], h: ElementHandle) -> (r: &str)
    ensures
        r@ == label_of(labels_view(nodes@), h),
{
    proof {
        assert(labels_view(nodes@).skip(0) =~= labels_view(nodes@));
    }
    let mut i: usize = 0;
    while i < nodes.len()
        invariant
            i <= nodes.len(),
            forall|j: int| 0 <= j < i ==> nodes@[j].0 != h,
            label_of(labels_view(nodes@), h) == label_of(labels_view(nodes@).skip(i as int), h),
        decreases nodes.len() - i,
    {
        let ghost rest = labels_view(nodes@).skip(i as int);
        proof {
            assert(rest.drop_first() =~= labels_view(nodes@).skip(i + 1));
            assert(rest[0] == (nodes@[i as int].0, nodes@[i as int].1@));
        }
        if nodes[i].0 == h {
            return nodes[i].1.as_str();
        }
        i = i + 1;
    }
    proof {
        reveal_strlit("");
        assert(labels_view(nodes@).skip(nodes@.len() as int) =~= Seq::<(ElementHandle, Seq<char>)>::empty());
    }
    ""
}

/// The entry describing an affordance, with the label of its target.
pub fn entry_for(a: &Affordance, nodes: &[(ElementHandle, String)]) -> (r: AffordanceEntry)
    ensures
        r@ == entry_of(*a, labels_view(nodes@)),
{
    AffordanceEntry {
        handle: a.target.0,
        action: a.action.name(),
        label: str_from(find_label(nodes, a.target)),
        required_capability: str_from(a.required_capability.name()),
    }
}

/// The one-line form of an entry.
pub fn encode_entry(e: &AffordanceEntry) -> (r: String)
    ensures
        r@ == entry_line(e@),
{
    let mut s = u64_decimal(e.handle);
    push_str(&mut s, ":");
    push_str(&mut s, e.action.as_str());
    push_str(&mut s, ":");
    push_str(&mut s, e.required_capability.as_str());
    push_str(&mut s, " \"");
    push_str(&mut s, e.label.as_str());
    push_str(&mut s, "\"");
    proof {
        assert(s@ =~= entry_line(e@));
    }
    s
}

/// Encode affordances as a compact PULSE frame string:
/// `ok affordances [handle:action:capability "label", ...]`, where each
/// label is that of the first node with the affordance's target handle.
pub fn encode_affordances(affordances: &[Affordance], nodes: &[(ElementHandle, String)]) -> (r: String)
    ensures
        r@ == affordances_frame(affordances@, labels_view(nodes@)),
{
    let ghost lines = affordances@.map_values(|a: Affordance| entry_line(entry_of(a, labels_view(nodes@))));
    let mut body = String::new();
    let mut i: usize = 0;
    while i < affordances.len()
        invariant
            i <= affordances.len(),
            lines == affordances@.map_values(|a: Affordance| entry_line(entry_of(a, labels_view(nodes@)))),
            body@ == joined(lines.take(i as int)),
        decreases affordances.len() - i,
    {
        let e = entry_for(&affordances[i], nodes);
        let line = encode_entry(&e);
        proof {
            assert(lines.take(i + 1).drop_last() =~= lines.take(i as int));
            assert(lines.take(i + 1).last() == line@);
        }
        if i > 0 {
            push_str(&mut body, ", ");
        }
        push_str(&mut body, line.as_str());
        proof {
            if i == 0 {
                assert(body@ =~= lines.take(1)[0]);
            }
        }
        i = i + 1;
    }
    proof {
        assert(lines.take(affordances@.len() as int) =~= lines);
    }
    let mut s = str_from("ok affordances [");
    push_str(&mut s, body.as_str());
    push_str(&mut s, "]");
    s
}

/// The content of a list of entries.
pub open spec fn entries_of(affs: Seq<Affordance>, nodes: Seq<(ElementHandle, Seq<char>)>) -> Seq<EntryView> {
    affs.map_values(|a: Affordance| entry_of(a, nodes))
}

/// The affordance frame with structured entries.
pub fn build_frames(affordances: &[Affordance], nodes: &[(ElementHandle, String)]) -> (r: Frame)
    ensures
        r matches Frame::OkAffordances { affordances: es } && es@.map_values(|e: AffordanceEntry| e@)
            == entries_of(affordances@, labels_view(nodes@)),
{
    let mut es: Vec<AffordanceEntry> = Vec::new();
    let mut i: usize = 0;
    while i < affordances.len()
        invariant
            i <= affordances.len(),
            es@.map_values(|e: AffordanceEntry| e@) == entries_of(affordances@.take(i as int), labels_view(nodes@)),
        decreases affordances.len() - i,
    {
        let e = entry_for(&affordances[i], nodes);
        let ghost before = es@.map_values(|e: AffordanceEntry| e@);
        es.push(e);
        proof {
            assert(es@.map_values(|e: AffordanceEntry| e@) =~= before.push(e@));
            assert(entries_of(affordances@.take(i + 1), labels_view(nodes@)) =~= entries_of(
                affordances@.take(i as int),
                labels_view(nodes@),
            ).push(entry_of(affordances@[i as int], labels_view(nodes@))));
        }
        i = i + 1;
    }
    proof {
        assert(affordances@.take(affordances@.len() as int) =~= affordances@);
    }
    Frame::OkAffordances { affordances: es }
}

/// The "do action" command: `do action {action} {handle}`.
pub open spec fn action_line(action: Seq<char>, handle: ElementHandle) -> Seq<char> {
    "do action "@ + action + " "@ + decimal(handle.0 as nat)
}

/// The "ok action" result: `ok action {action} {handle} {result}`.
pub open spec fn result_line(action: Seq<char>, handle: ElementHandle, result: Seq<char>) -> Seq<char> {
    "ok action "@ + action + " "@ + decimal(handle.0 as nat) + " "@ + result
}

/// Encode a "do action" frame as a string.
pub fn encode_action(action: &str, handle: ElementHandle) -> (r: String)
    ensures
        r@ == action_line(action@, handle),
{
    let mut s = str_from("do action ");
    push_str(&mut s, action);
    push_str(&mut s, " ");
    let n = u64_decimal(handle.0);
    push_str(&mut s, n.as_str());
    s
}

/// Encode an "ok action" result frame as a string.
pub fn encode_action_result(action: &str, handle: ElementHandle, result: &str) -> (r: String)
    ensures
        r@ == result_line(action@, handle, result@),
{
    let mut s = str_from("ok action ");
    push_str(&mut s, action);
    push_str(&mut s, " ");
    let n = u64_decimal(handle.0);
    push_str(&mut s, n.as_str());
    push_str(&mut s, " ");
    push_str(&mut s, result);
    s
}

/// A result line is the action line with `do` replaced by `ok` and the
/// result appended.
pub proof fn law_result_extends_action(action: Seq<char>, handle: ElementHandle, result: Seq<char>)
    ensures
        result_line(action, handle, result) == "ok"@ + action_line(action, handle).skip(2) + " "@ + result,
{
    reveal_strlit("ok action ");
    reveal_strlit("do action ");
    reveal_strlit("ok");
    assert(result_line(action, handle, result) =~= "ok"@ + action_line(action, handle).skip(2) + " "@ + result);
}

} // verus!
