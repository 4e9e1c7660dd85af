//! The browser's `web.*` capability vocabulary, and how browser capabilities
//! map onto it.
//!
//! Each capability is a dotted name (`web.dom.read`, `web.navigate`, ...),
//! foreign to the kernel's `signal.*` and JavaScript's `js.*` spaces.
use vstd::prelude::*;
use crate::capability::Capability;

verus! {

/// Vocabulary version: bumped when terms or capabilities change.
pub const VOCAB_VERSION: u32 = 1;

pub const WEB_DOM_READ_NAME: &'static str = "web.dom.read";
pub const WEB_DOM_WRITE_NAME: &'static str = "web.dom.write";
pub const WEB_DOM_CLICK_NAME: &'static str = "web.dom.click";
pub const WEB_DOM_SUBMIT_NAME: &'static str = "web.dom.submit";
pub const WEB_DOM_FOCUS_NAME: &'static str = "web.dom.focus";
pub const WEB_DOM_TYPE_NAME: &'static str = "web.dom.type";
pub const WEB_OBSERVE_NAME: &'static str = "web.observe";
pub const WEB_NAVIGATE_NAME: &'static str = "web.navigate";
pub const WEB_EGRESS_NAME: &'static str = "web.egress";
pub const WEB_STORAGE_READ_NAME: &'static str = "web.storage.read";
pub const WEB_STORAGE_WRITE_NAME: &'static str = "web.storage.write";
pub const WEB_AI_READ_NAME: &'static str = "web.ai.read";
pub const WEB_AI_ACT_NAME: &'static str = "web.ai.act";

/// The `web.*` name a browser capability maps to, if any. Media, history
/// and code capabilities have none; network reads count as DOM reads.
pub open spec fn braid_name(c: Capability) -> Option<Seq<char>> {
    match c {
        Capability::DomRead => Some("web.dom.read"@),
        Capability::DomWrite => Some("web.dom.write"@),
        Capability::DomActionClick => Some("web.dom.click"@),
        Capability::DomActionSubmit => Some("web.dom.submit"@),
        Capability::DomActionFocus => Some("web.dom.focus"@),
        Capability::DomActionType => Some("web.dom.type"@),
        Capability::NetworkEgress => Some("web.egress"@),
        Capability::NetworkRead => Some("web.dom.read"@),
        Capability::StorageRead => Some("web.storage.read"@),
        Capability::StorageWrite => Some("web.storage.write"@),
        Capability::AiAffordances => Some("web.observe"@),
        Capability::AiActions => Some("web.ai.act"@),
        Capability::AiRead => Some("web.ai.read"@),
        Capability::NavigationNavigate => Some("web.navigate"@),
        Capability::MediaPlay | Capability::MediaCapture => None,
        Capability::NavigationHistory => None,
        Capability::CodeDynamic | Capability::CodeBraid => None,
    }
}

/// The dotted name of the Braid capability a browser capability maps to.
pub fn to_braid_cap(cap: Capability) -> (r: Option<&'static str>)
    ensures
        match r {
            Some(n) => braid_name(cap) == Some(n@),
            None => braid_name(cap) is None,
        },
{
    match cap {
        Capability::DomRead => Some(WEB_DOM_READ_NAME),
        Capability::DomWrite => Some(WEB_DOM_WRITE_NAME),
        Capability::DomActionClick => Some(WEB_DOM_CLICK_NAME),
        Capability::DomActionSubmit => Some(WEB_DOM_SUBMIT_NAME),
        Capability::DomActionFocus => Some(WEB_DOM_FOCUS_NAME),
        Capability::DomActionType => Some(WEB_DOM_TYPE_NAME),
        Capability::NetworkEgress => Some(WEB_EGRESS_NAME),
        Capability::NetworkRead => Some(WEB_DOM_READ_NAME),
        Capability::StorageRead => Some(WEB_STORAGE_READ_NAME),
        Capability::StorageWrite => Some(WEB_STORAGE_WRITE_NAME),
        Capability::AiAffordances => Some(WEB_OBSERVE_NAME),
        Capability::AiActions => Some(WEB_AI_ACT_NAME),
        Capability::AiRead => Some(WEB_AI_READ_NAME),
        Capability::NavigationNavigate => Some(WEB_NAVIGATE_NAME),
        Capability::MediaPlay | Capability::MediaCapture => None,
        Capability::NavigationHistory => None,
        Capability::CodeDynamic | Capability::CodeBraid => None,
    }
}

/// The names of the mapped capabilities of a list, in order, the unmapped
/// ones left out.
pub open spec fn braid_names(caps: Seq<Capability>) -> Seq<Seq<char>>
    decreases caps.len(),
{
    if caps.len() == 0 {
        Seq::empty()
    } else {
        match braid_name(caps.last()) {
            Some(n) => braid_names(caps.drop_last()).push(n),
            None => braid_names(caps.drop_last()),
        }
    }
}

/// Convert a list of browser capabilities to Braid capability names,
/// leaving out those with no mapping.
pub fn browser_caps_to_braid(caps: &[Capability]) -> (r: Vec<&'static str>)
    ensures
        r@.map_values(|s: &'static str| s@) == braid_names(caps@),
{
    let mut out: Vec<&'static str> = Vec::new();
    let mut i: usize = 0;
    while i < caps.len()
        invariant
            i <= caps.len(),
            out@.map_values(|s: &'static str| s@) == braid_names(caps@.take(i as int)),
        decreases caps.len() - i,
    {
        proof {
            assert(caps@.take(i + 1).drop_last() =~= caps@.take(i as int));
            assert(caps@.take(i + 1).last() == caps@[i as int]);
        }
        let ghost before = out@.map_values(|s: &'static str| s@);
        match to_braid_cap(caps[i]) {
            Some(n) => {
                out.push(n);
                proof {
                    assert(out@.map_values(|s: &'static str| s@) =~= before.push(n@));
                }
            },
            None => {},
        }
        i = i + 1;
    }
    proof {
        assert(caps@.take(caps@.len() as int) =~= caps@);
    }
    out
}

/// Every mapped name lies in the `web.` space.
pub proof fn law_names_are_web(c: Capability)
    ensures
        braid_name(c) matches Some(n) ==> n.take(4) == "web."@,
{
    reveal_strlit("web.");
    reveal_strlit("web.dom.read");
    reveal_strlit("web.dom.write");
    reveal_strlit("web.dom.click");
    reveal_strlit("web.dom.submit");
    reveal_strlit("web.dom.focus");
    reveal_strlit("web.dom.type");
    reveal_strlit("web.egress");
    reveal_strlit("web.storage.read");
    reveal_strlit("web.storage.write");
    reveal_strlit("web.observe");
    reveal_strlit("web.ai.act");
    reveal_strlit("web.ai.read");
    reveal_strlit("web.navigate");
    if let Some(n) = braid_name(c) {
        assert(n.take(4) =~= "web."@);
    }
}

} // verus!
