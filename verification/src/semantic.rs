//! Affordances: what an AI agent can do with each element of the
//! accessibility tree, and the capability each action needs.
use vstd::prelude::*;
use crate::a11y::{A11yNodeView, A11yTree, Role, a11y_view};
use crate::capability::Capability;

verus! {

/// A stable element handle, surviving DOM mutation.
#[derive(Debug, Clone, Copy, PartialEq, Eq, Hash, Structural)]
pub struct ElementHandle(pub u64);

/// Field type for form inputs.
#[derive(Debug, Clone, Copy, PartialEq, Eq, Structural)]
pub enum FieldType {
    Text,
    Email,
    Password,
    Number,
}

/// An action the AI can take.
#[derive(Debug, Clone, Copy, PartialEq, Eq, Structural)]
pub enum Action {
    Click,
    Fill { field_type: FieldType },
    Submit,
    ReadText,
    Select,
}

/// An affordance: an action on a target, and the capability it needs.
#[derive(Debug, Clone, Copy, PartialEq, Eq, Structural)]
pub struct Affordance {
    pub action: Action,
    pub target: ElementHandle,
    pub required_capability: Capability,
}

/// The name of a field type.
pub open spec fn field_type_name(f: FieldType) -> Seq<char> {
    match f {
        FieldType::Text => "Text"@,
        FieldType::Email => "Email"@,
        FieldType::Password => "Password"@,
        FieldType::Number => "Number"@,
    }
}

/// The name of an action, as it is written in frames.
pub open spec fn action_name(a: Action) -> Seq<char> {
    match a {
        Action::Click => "click"@,
        Action::Fill { field_type } => "fill:"@ + field_type_name(field_type),
        Action::Submit => "submit"@,
        Action::ReadText => "read"@,
        Action::Select => "select"@,
    }
}

impl FieldType {
    /// The field type's name.
    pub fn name(&self) -> (r: &'static str)
        ensures
            r@ == field_type_name(*self),
    {
        match self {
            FieldType::Text => "Text",
            FieldType::Email => "Email",
            FieldType::Password => "Password",
            FieldType::Number => "Number",
        }
    }
}

impl Action {
    /// The action's name (what `Display` writes).
    pub fn name(&self) -> (r: String)
        ensures
            r@ == action_name(*self),
    {
        match self {
            Action::Click => crate::text::str_from("click"),
            Action::Fill { field_type } => {
                let mut s = crate::text::str_from("fill:");
                crate::text::push_str(&mut s, field_type.name());
                s
            },
            Action::Submit => crate::text::str_from("submit"),
            Action::ReadText => crate::text::str_from("read"),
            Action::Select => crate::text::str_from("select"),
        }
    }
}

/// One affordance.
pub open spec fn one(action: Action, h: ElementHandle, cap: Capability) -> Seq<Affordance> {
    seq![Affordance { action, target: h, required_capability: cap }]
}

/// The affordances of an element with the given role and label: clickable
/// roles can be clicked, text boxes filled, combo boxes clicked and selected,
/// and other roles read, when they have a label.
pub open spec fn affordances_of(role: Role, label: Seq<char>, h: ElementHandle) -> Seq<Affordance> {
    match role {
        Role::Button | Role::Link | Role::Checkbox | Role::RadioButton | Role::MenuItem =>
            one(Action::Click, h, Capability::DomActionClick),
        Role::Textbox => one(Action::Fill { field_type: FieldType::Text }, h, Capability::DomActionType),
        Role::ComboBox => one(Action::Click, h, Capability::DomActionClick) + one(Action::Select, h,
            Capability::DomActionClick),
        Role::Heading | Role::Paragraph | Role::Image | Role::Generic => if label.len() > 0 {
            one(Action::ReadText, h, Capability::AiRead)
        } else {
            Seq::empty()
        },
    }
}

/// Compute the affordances of an element from its role.
pub fn compute_affordances(role: &Role, label: &str, handle: ElementHandle) -> (r: Vec<Affordance>)
    ensures
        r@ == affordances_of(*role, label@, handle),
{
    let r = match role {
        Role::Button | Role::Link | Role::Checkbox | Role::RadioButton | Role::MenuItem => vec![
            Affordance { action: Action::Click, target: handle, required_capability: Capability::DomActionClick },
        ],
        Role::Textbox => vec![
            Affordance {
                action: Action::Fill { field_type: FieldType::Text },
                target: handle,
                required_capability: Capability::DomActionType,
            },
        ],
        Role::ComboBox => vec![
            Affordance { action: Action::Click, target: handle, required_capability: Capability::DomActionClick },
            Affordance { action: Action::Select, target: handle, required_capability: Capability::DomActionClick },
        ],
        Role::Heading | Role::Paragraph | Role::Image | Role::Generic => {
            if !label.is_empty() {
                vec![Affordance { action: Action::ReadText, target: handle, required_capability: Capability::AiRead }]
            } else {
                vec![]
            }
        },
    };
    proof {
        assert(r@ =~= affordances_of(*role, label@, handle));
    }
    r
}

/// The affordances of every node of an accessibility tree, in node order;
/// node `i` has handle `i`.
pub open spec fn all_affordances(nodes: Seq<A11yNodeView>) -> Seq<Affordance>
    decreases nodes.len(),
{
    if nodes.len() == 0 {
        Seq::empty()
    } else {
        all_affordances(nodes.drop_last()) + affordances_of(
            nodes.last().role,
            nodes.last().label,
            ElementHandle((nodes.len() - 1) as u64),
        )
    }
}

/// The affordances of an accessibility tree: node `i` gets handle `i`.
pub fn affordances_for(a11y: &A11yTree) -> (r: Vec<Affordance>)
    requires
        a11y.nodes@.len() <= u64::MAX,
    ensures
        r@ == all_affordances(a11y_view(a11y.nodes@)),
{
    let mut out: Vec<Affordance> = Vec::new();
    let mut i: usize = 0;
    while i < a11y.nodes.len()
        invariant
            i <= a11y.nodes.len(),
            a11y.nodes@.len() <= u64::MAX,
            out@ == all_affordances(a11y_view(a11y.nodes@).take(i as int)),
        decreases a11y.nodes.len() - i,
    {
        let node = &a11y.nodes[i];
        let handle = ElementHandle(i as u64);
        let more = compute_affordances(&node.role, node.label.as_str(), handle);
        let mut j: usize = 0;
        let ghost before = out@;
        while j < more.len()
            invariant
                j <= more.len(),
                out@ == before + more@.take(j as int),
            decreases more.len() - j,
        {
            out.push(more[j]);
            proof {
                assert(more@.take(j + 1) =~= more@.take(j as int).push(more@[j as int]));
                assert(out@ =~= before + more@.take(j + 1));
            }
            j = j + 1;
        }
        proof {
            let v = a11y_view(a11y.nodes@);
            assert(v.take(i + 1).drop_last() =~= v.take(i as int));
            assert(v.take(i + 1).last() == a11y.nodes@[i as int]@);
            assert(more@.take(more@.len() as int) =~= more@);
        }
        i = i + 1;
    }
    proof {
        assert(a11y_view(a11y.nodes@).take(a11y.nodes@.len() as int) =~= a11y_view(a11y.nodes@));
    }
    out
}

/// Every affordance of a tree targets one of its nodes.
pub proof fn law_affordances_target_nodes(nodes: Seq<A11yNodeView>)
    ensures
        forall|k: int| 0 <= k < all_affordances(nodes).len() ==> (#[trigger] all_affordances(nodes)[k]).target.0
            < nodes.len(),
    decreases nodes.len(),
{
    if nodes.len() > 0 {
        law_affordances_target_nodes(nodes.drop_last());
        let a = all_affordances(nodes.drop_last());
        let b = affordances_of(nodes.last().role, nodes.last().label, ElementHandle((nodes.len() - 1) as u64));
        assert forall|k: int| 0 <= k < all_affordances(nodes).len() implies (#[trigger] all_affordances(nodes)[k]).target.0
            < nodes.len() by {
            if k < a.len() {
                assert(all_affordances(nodes)[k] == a[k]);
            } else {
                assert(all_affordances(nodes)[k] == b[k - a.len()]);
            }
        }
    }
}

/// Reading needs `AiRead`, filling needs `DomActionType`, and every other
/// action needs `DomActionClick`.
pub proof fn law_action_capability(role: Role, label: Seq<char>, h: ElementHandle)
    ensures
        forall|k: int| 0 <= k < affordances_of(role, label, h).len() ==> {
            let a = #[trigger] affordances_of(role, label, h)[k];
            &&& a.target == h
            &&& a.required_capability == match a.action {
                Action::ReadText => Capability::AiRead,
                Action::Fill { .. } => Capability::DomActionType,
                _ => Capability::DomActionClick,
            }
        },
{
}

/// What each role affords: buttons, links, checkboxes, radio buttons and
/// menu items one click; text boxes one text fill; combo boxes a click and a
/// select; headings, paragraphs, images and generic nodes one read of their
/// text when they have a label, and nothing when they have none.
pub proof fn law_affordances_by_role(role: Role, label: Seq<char>, h: ElementHandle)
    ensures
        (role == Role::Button || role == Role::Link || role == Role::Checkbox || role == Role::RadioButton
            || role == Role::MenuItem) ==> affordances_of(role, label, h) == seq![
            Affordance { action: Action::Click, target: h, required_capability: Capability::DomActionClick },
        ],
        role == Role::Textbox ==> affordances_of(role, label, h) == seq![
            Affordance {
                action: Action::Fill { field_type: FieldType::Text },
                target: h,
                required_capability: Capability::DomActionType,
            },
        ],
        role == Role::ComboBox ==> affordances_of(role, label, h) == seq![
            Affordance { action: Action::Click, target: h, required_capability: Capability::DomActionClick },
            Affordance { action: Action::Select, target: h, required_capability: Capability::DomActionClick },
        ],
        (role == Role::Heading || role == Role::Paragraph || role == Role::Image || role == Role::Generic) && label.len()
            > 0 ==> affordances_of(role, label, h) == seq![
            Affordance { action: Action::ReadText, target: h, required_capability: Capability::AiRead },
        ],
        (role == Role::Heading || role == Role::Paragraph || role == Role::Image || role == Role::Generic) && label.len()
            == 0 ==> affordances_of(role, label, h).len() == 0,
{
    let c = seq![Affordance { action: Action::Click, target: h, required_capability: Capability::DomActionClick }];
    let s = seq![Affordance { action: Action::Select, target: h, required_capability: Capability::DomActionClick }];
    assert(c + s =~= seq![
        Affordance { action: Action::Click, target: h, required_capability: Capability::DomActionClick },
        Affordance { action: Action::Select, target: h, required_capability: Capability::DomActionClick },
    ]);
}

} // verus!
