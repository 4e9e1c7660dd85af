//! Browser capabilities and the privacy levels that grant them.
use vstd::prelude::*;

verus! {

/// Browser capabilities — what operations are allowed.
#[derive(Debug, Clone, Copy, PartialEq, Eq, Hash, Structural)]
pub enum Capability {
    DomRead,
    DomWrite,
    DomActionClick,
    DomActionSubmit,
    DomActionFocus,
    DomActionType,
    NetworkEgress,
    NetworkRead,
    StorageRead,
    StorageWrite,
    MediaPlay,
    MediaCapture,
    NavigationNavigate,
    NavigationHistory,
    CodeDynamic,
    CodeBraid,
    AiAffordances,
    AiActions,
    AiRead,
}

/// Errors from capability checking.
#[derive(Debug, Clone, Copy, PartialEq, Eq, Structural)]
pub enum CapabilityError {
    Denied { required: Capability },
    Escalation { original: Capability, wider: Capability },
}

/// The privacy level — controls what capabilities are available.
#[derive(Debug, Clone, Copy, PartialEq, Eq, PartialOrd, Ord, Structural)]
pub enum PrivacyLevel {
    /// No AI access. Human-only mode.
    Off,
    /// Read-only.
    Low,
    /// Read + safe actions.
    Medium,
    /// Read + write + actions.
    High,
    /// Everything.
    Full,
}

/// Position of a level in the order Off < Low < Medium < High < Full.
pub open spec fn level_rank(l: PrivacyLevel) -> nat {
    match l {
        PrivacyLevel::Off => 0,
        PrivacyLevel::Low => 1,
        PrivacyLevel::Medium => 2,
        PrivacyLevel::High => 3,
        PrivacyLevel::Full => 4,
    }
}

/// The capabilities a level grants, in the order the level lists them.
pub open spec fn level_caps(l: PrivacyLevel) -> Seq<Capability> {
    match l {
        PrivacyLevel::Off => seq![],
        PrivacyLevel::Low => seq![Capability::DomRead, Capability::AiAffordances, Capability::AiRead],
        PrivacyLevel::Medium => seq![
            Capability::DomRead,
            Capability::DomWrite,
            Capability::DomActionClick,
            Capability::DomActionFocus,
            Capability::DomActionType,
            Capability::NetworkRead,
            Capability::StorageRead,
            Capability::AiAffordances,
            Capability::AiActions,
            Capability::AiRead,
        ],
        PrivacyLevel::High => seq![
            Capability::DomRead,
            Capability::DomWrite,
            Capability::DomActionClick,
            Capability::DomActionSubmit,
            Capability::DomActionFocus,
            Capability::DomActionType,
            Capability::NetworkEgress,
            Capability::NetworkRead,
            Capability::StorageRead,
            Capability::StorageWrite,
            Capability::NavigationNavigate,
            Capability::NavigationHistory,
            Capability::MediaPlay,
            Capability::AiAffordances,
            Capability::AiActions,
            Capability::AiRead,
        ],
        PrivacyLevel::Full => seq![
            Capability::DomRead,
            Capability::DomWrite,
            Capability::DomActionClick,
            Capability::DomActionSubmit,
            Capability::DomActionFocus,
            Capability::DomActionType,
            Capability::NetworkEgress,
            Capability::NetworkRead,
            Capability::StorageRead,
            Capability::StorageWrite,
            Capability::NavigationNavigate,
            Capability::NavigationHistory,
            Capability::MediaPlay,
            Capability::MediaCapture,
            Capability::CodeDynamic,
            Capability::CodeBraid,
            Capability::AiAffordances,
            Capability::AiActions,
            Capability::AiRead,
        ],
    }
}

/// Whether a level grants a capability, stated capability by capability.
pub open spec fn level_grants(l: PrivacyLevel, c: Capability) -> bool {
    match c {
        Capability::DomRead | Capability::AiAffordances | Capability::AiRead => level_rank(l) >= 1,
        Capability::DomWrite | Capability::DomActionClick | Capability::DomActionFocus
        | Capability::DomActionType | Capability::NetworkRead | Capability::StorageRead
        | Capability::AiActions => level_rank(l) >= 2,
        Capability::DomActionSubmit | Capability::NetworkEgress | Capability::StorageWrite
        | Capability::NavigationNavigate | Capability::NavigationHistory
        | Capability::MediaPlay => level_rank(l) >= 3,
        Capability::MediaCapture | Capability::CodeDynamic | Capability::CodeBraid => level_rank(l) >= 4,
    }
}

/// The listed capabilities of a level are exactly those it grants.
pub proof fn lemma_level_caps_grants(l: PrivacyLevel, c: Capability)
    ensures
        level_caps(l).contains(c) <==> level_grants(l, c),
{
    let s = level_caps(l);
    if level_grants(l, c) {
        match l {
            PrivacyLevel::Off => {},
            PrivacyLevel::Low => {
                match c {
                    Capability::DomRead => assert(s[0] == c),
                    Capability::AiAffordances => assert(s[1] == c),
                    _ => assert(s[2] == c),
                }
            },
            PrivacyLevel::Medium => {
                match c {
                    Capability::DomRead => assert(s[0] == c),
                    Capability::DomWrite => assert(s[1] == c),
                    Capability::DomActionClick => assert(s[2] == c),
                    Capability::DomActionFocus => assert(s[3] == c),
                    Capability::DomActionType => assert(s[4] == c),
                    Capability::NetworkRead => assert(s[5] == c),
                    Capability::StorageRead => assert(s[6] == c),
                    Capability::AiAffordances => assert(s[7] == c),
                    Capability::AiActions => assert(s[8] == c),
                    _ => assert(s[9] == c),
                }
            },
            PrivacyLevel::High => {
                match c {
                    Capability::DomRead => assert(s[0] == c),
                    Capability::DomWrite => assert(s[1] == c),
                    Capability::DomActionClick => assert(s[2] == c),
                    Capability::DomActionSubmit => assert(s[3] == c),
                    Capability::DomActionFocus => assert(s[4] == c),
                    Capability::DomActionType => assert(s[5] == c),
                    Capability::NetworkEgress => assert(s[6] == c),
                    Capability::NetworkRead => assert(s[7] == c),
                    Capability::StorageRead => assert(s[8] == c),
                    Capability::StorageWrite => assert(s[9] == c),
                    Capability::NavigationNavigate => assert(s[10] == c),
                    Capability::NavigationHistory => assert(s[11] == c),
                    Capability::MediaPlay => assert(s[12] == c),
                    Capability::AiAffordances => assert(s[13] == c),
                    Capability::AiActions => assert(s[14] == c),
                    _ => assert(s[15] == c),
                }
            },
            PrivacyLevel::Full => {
                match c {
                    Capability::DomRead => assert(s[0] == c),
                    Capability::DomWrite => assert(s[1] == c),
                    Capability::DomActionClick => assert(s[2] == c),
                    Capability::DomActionSubmit => assert(s[3] == c),
                    Capability::DomActionFocus => assert(s[4] == c),
                    Capability::DomActionType => assert(s[5] == c),
                    Capability::NetworkEgress => assert(s[6] == c),
                    Capability::NetworkRead => assert(s[7] == c),
                    Capability::StorageRead => assert(s[8] == c),
                    Capability::StorageWrite => assert(s[9] == c),
                    Capability::NavigationNavigate => assert(s[10] == c),
                    Capability::NavigationHistory => assert(s[11] == c),
                    Capability::MediaPlay => assert(s[12] == c),
                    Capability::MediaCapture => assert(s[13] == c),
                    Capability::CodeDynamic => assert(s[14] == c),
                    Capability::CodeBraid => assert(s[15] == c),
                    Capability::AiAffordances => assert(s[16] == c),
                    Capability::AiActions => assert(s[17] == c),
                    _ => assert(s[18] == c),
                }
            },
        }
    }
    if s.contains(c) {
        let i = choose|i: int| 0 <= i < s.len() && s[i] == c;
        assert(level_grants(l, s[i]));
    }
}

impl PrivacyLevel {
    /// Get the capabilities available at this privacy level.
    pub fn capabilities(&self) -> (r: Vec<Capability>)
        ensures
            r@ == level_caps(*self),
    {
        match self {
            PrivacyLevel::Off => vec![],
            PrivacyLevel::Low => vec![Capability::DomRead, Capability::AiAffordances, Capability::AiRead],
            PrivacyLevel::Medium => vec![
                Capability::DomRead,
                Capability::DomWrite,
                Capability::DomActionClick,
                Capability::DomActionFocus,
                Capability::DomActionType,
                Capability::NetworkRead,
                Capability::StorageRead,
                Capability::AiAffordances,
                Capability::AiActions,
                Capability::AiRead,
            ],
            PrivacyLevel::High => vec![
                Capability::DomRead,
                Capability::DomWrite,
                Capability::DomActionClick,
                Capability::DomActionSubmit,
                Capability::DomActionFocus,
                Capability::DomActionType,
                Capability::NetworkEgress,
                Capability::NetworkRead,
                Capability::StorageRead,
                Capability::StorageWrite,
                Capability::NavigationNavigate,
                Capability::NavigationHistory,
                Capability::MediaPlay,
                Capability::AiAffordances,
                Capability::AiActions,
                Capability::AiRead,
            ],
            PrivacyLevel::Full => vec![
                Capability::DomRead,
                Capability::DomWrite,
                Capability::DomActionClick,
                Capability::DomActionSubmit,
                Capability::DomActionFocus,
                Capability::DomActionType,
                Capability::NetworkEgress,
                Capability::NetworkRead,
                Capability::StorageRead,
                Capability::StorageWrite,
                Capability::NavigationNavigate,
                Capability::NavigationHistory,
                Capability::MediaPlay,
                Capability::MediaCapture,
                Capability::CodeDynamic,
                Capability::CodeBraid,
                Capability::AiAffordances,
                Capability::AiActions,
                Capability::AiRead,
            ],
        }
    }

    /// Check if a capability is available at this privacy level.
    pub fn has(&self, cap: Capability) -> (r: bool)
        ensures
            r == level_caps(*self).contains(cap),
            r == level_grants(*self, cap),
    {
        proof {
            lemma_level_caps_grants(*self, cap);
        }
        contains_cap(self.capabilities().as_slice(), cap)
    }
}

/// Whether a capability occurs in a list.
pub fn contains_cap(caps: &[Capability], cap: Capability) -> (r: bool)
    ensures
        r == caps@.contains(cap),
{
    let mut i: usize = 0;
    while i < caps.len()
        invariant
            i <= caps.len(),
            forall|j: int| 0 <= j < i ==> caps@[j] != cap,
        decreases caps.len() - i,
    {
        if caps[i] == cap {
            return true;
        }
        i = i + 1;
    }
    false
}

/// Check if a capability is granted.
pub fn check_capability(granted: &[Capability], required: Capability) -> (r: Result<(), CapabilityError>)
    ensures
        granted@.contains(required) ==> r == Ok::<(), CapabilityError>(()),
        !granted@.contains(required) ==> r == Err::<(), CapabilityError>(
            CapabilityError::Denied { required },
        ),
{
    if contains_cap(granted, required) {
        Ok(())
    } else {
        Err(CapabilityError::Denied { required })
    }
}

/// What each privacy level grants: Off nothing; Low reading the DOM, AI
/// affordances and AI reading; Medium adds writing the DOM, clicking,
/// focusing, typing, network reads, storage reads and AI actions; High adds
/// submitting, network egress, storage writes, navigation, history and
/// media playback; Full adds media capture and dynamic code.
pub proof fn law_level_tables(c: Capability)
    ensures
        !level_caps(PrivacyLevel::Off).contains(c),
        level_caps(PrivacyLevel::Low).contains(c) <==> (c == Capability::DomRead || c == Capability::AiAffordances
            || c == Capability::AiRead),
        level_caps(PrivacyLevel::Medium).contains(c) <==> (c == Capability::DomRead || c == Capability::DomWrite
            || c == Capability::DomActionClick || c == Capability::DomActionFocus || c == Capability::DomActionType
            || c == Capability::NetworkRead || c == Capability::StorageRead || c == Capability::AiAffordances
            || c == Capability::AiActions || c == Capability::AiRead),
        level_caps(PrivacyLevel::High).contains(c) <==> (c == Capability::DomRead || c == Capability::DomWrite
            || c == Capability::DomActionClick || c == Capability::DomActionSubmit || c == Capability::DomActionFocus
            || c == Capability::DomActionType || c == Capability::NetworkEgress || c == Capability::NetworkRead
            || c == Capability::StorageRead || c == Capability::StorageWrite || c == Capability::NavigationNavigate
            || c == Capability::NavigationHistory || c == Capability::MediaPlay || c == Capability::AiAffordances
            || c == Capability::AiActions || c == Capability::AiRead),
        level_caps(PrivacyLevel::Full).contains(c),
{
    lemma_level_caps_grants(PrivacyLevel::Off, c);
    lemma_level_caps_grants(PrivacyLevel::Low, c);
    lemma_level_caps_grants(PrivacyLevel::Medium, c);
    lemma_level_caps_grants(PrivacyLevel::High, c);
    lemma_level_caps_grants(PrivacyLevel::Full, c);
}

/// Raising the privacy level never takes a capability away.
pub proof fn law_levels_monotone(lo: PrivacyLevel, hi: PrivacyLevel, c: Capability)
    requires
        level_rank(lo) <= level_rank(hi),
        level_caps(lo).contains(c),
    ensures
        level_caps(hi).contains(c),
{
    lemma_level_caps_grants(lo, c);
    lemma_level_caps_grants(hi, c);
}

/// Off grants nothing; Full grants everything.
pub proof fn law_level_extremes(c: Capability)
    ensures
        !level_caps(PrivacyLevel::Off).contains(c),
        level_caps(PrivacyLevel::Full).contains(c),
{
    lemma_level_caps_grants(PrivacyLevel::Off, c);
    lemma_level_caps_grants(PrivacyLevel::Full, c);
}

/// Dynamic code, and camera or microphone capture, need the Full level.
pub proof fn law_dangerous_needs_full(l: PrivacyLevel)
    requires
        l != PrivacyLevel::Full,
    ensures
        !level_caps(l).contains(Capability::CodeDynamic),
        !level_caps(l).contains(Capability::CodeBraid),
        !level_caps(l).contains(Capability::MediaCapture),
{
    lemma_level_caps_grants(l, Capability::CodeDynamic);
    lemma_level_caps_grants(l, Capability::CodeBraid);
    lemma_level_caps_grants(l, Capability::MediaCapture);
}


/// The name of a capability, as `Debug` writes it.
pub open spec fn cap_name(c: Capability) -> Seq<char> {
    match c {
        Capability::DomRead => "DomRead"@,
        Capability::DomWrite => "DomWrite"@,
        Capability::DomActionClick => "DomActionClick"@,
        Capability::DomActionSubmit => "DomActionSubmit"@,
        Capability::DomActionFocus => "DomActionFocus"@,
        Capability::DomActionType => "DomActionType"@,
        Capability::NetworkEgress => "NetworkEgress"@,
        Capability::NetworkRead => "NetworkRead"@,
        Capability::StorageRead => "StorageRead"@,
        Capability::StorageWrite => "StorageWrite"@,
        Capability::MediaPlay => "MediaPlay"@,
        Capability::MediaCapture => "MediaCapture"@,
        Capability::NavigationNavigate => "NavigationNavigate"@,
        Capability::NavigationHistory => "NavigationHistory"@,
        Capability::CodeDynamic => "CodeDynamic"@,
        Capability::CodeBraid => "CodeBraid"@,
        Capability::AiAffordances => "AiAffordances"@,
        Capability::AiActions => "AiActions"@,
        Capability::AiRead => "AiRead"@,
    }
}

impl Capability {
    /// The capability's name, as `Debug` writes it.
    pub fn name(&self) -> (r: &'static str)
        ensures
            r@ == cap_name(*self),
    {
        match self {
            Capability::DomRead => "DomRead",
            Capability::DomWrite => "DomWrite",
            Capability::DomActionClick => "DomActionClick",
            Capability::DomActionSubmit => "DomActionSubmit",
            Capability::DomActionFocus => "DomActionFocus",
            Capability::DomActionType => "DomActionType",
            Capability::NetworkEgress => "NetworkEgress",
            Capability::NetworkRead => "NetworkRead",
            Capability::StorageRead => "StorageRead",
            Capability::StorageWrite => "StorageWrite",
            Capability::MediaPlay => "MediaPlay",
            Capability::MediaCapture => "MediaCapture",
            Capability::NavigationNavigate => "NavigationNavigate",
            Capability::NavigationHistory => "NavigationHistory",
            Capability::CodeDynamic => "CodeDynamic",
            Capability::CodeBraid => "CodeBraid",
            Capability::AiAffordances => "AiAffordances",
            Capability::AiActions => "AiActions",
            Capability::AiRead => "AiRead",
        }
    }
}

} // verus!
