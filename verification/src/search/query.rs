//! The eval-free query AST and its parser.
//!
//! Raw user input becomes a tree of literal terms; operator characters,
//! control characters and overlong input are rejected, never interpreted.
use vstd::prelude::*;
use crate::search::error::FailClosed;
use crate::text::{chars_of, is_control, is_ctrl, is_ws, lemma_words_chars, lowercase, split_whitespace,
    str_from, strings_view, to_lowercase, trim, trim_str, words};

verus! {

/// A term that passed normalization: lowercase, with no operator characters.
#[derive(Clone, Debug, PartialEq, Eq, Hash)]
pub struct NormalizedTerm(pub String);

/// The indexed fields a query can address.
#[derive(Clone, Copy, Debug, PartialEq, Eq, Hash, Structural)]
pub enum Field {
    Tag,
    Role,
    Text,
    AriaLabel,
}

/// A reference to an embedding, for vector queries.
#[derive(Clone, Copy, Debug, Default)]
pub struct EmbeddingRef;

/// A parsed query: literal terms combined by AND / OR.
#[derive(Debug)]
pub enum QueryPlan {
    Term(Field, NormalizedTerm),
    Phrase(Field, Vec<NormalizedTerm>),
    Vector(EmbeddingRef, u64),
    And(Box<QueryPlan>, Box<QueryPlan>),
    Or(Box<QueryPlan>, Box<QueryPlan>),
    Empty,
}

/// The content of a query plan.
pub enum PlanView {
    Term(Field, Seq<char>),
    Phrase(Field, Seq<Seq<char>>),
    Vector(u64),
    And(Box<PlanView>, Box<PlanView>),
    Or(Box<PlanView>, Box<PlanView>),
    Empty,
}

/// The content of a list of terms.
pub open spec fn terms_view(v: Seq<NormalizedTerm>) -> Seq<Seq<char>> {
    v.map_values(|t: NormalizedTerm| t.0@)
}

/// The content of a query plan.
pub open spec fn plan_view(p: QueryPlan) -> PlanView
    decreases p,
{
    match p {
        QueryPlan::Term(f, t) => PlanView::Term(f, t.0@),
        QueryPlan::Phrase(f, ts) => PlanView::Phrase(f, terms_view(ts@)),
        QueryPlan::Vector(_, sf) => PlanView::Vector(sf),
        QueryPlan::And(a, b) => PlanView::And(Box::new(plan_view(*a)), Box::new(plan_view(*b))),
        QueryPlan::Or(a, b) => PlanView::Or(Box::new(plan_view(*a)), Box::new(plan_view(*b))),
        QueryPlan::Empty => PlanView::Empty,
    }
}

impl View for QueryPlan {
    type V = PlanView;

    open spec fn view(&self) -> PlanView {
        plan_view(*self)
    }
}

/// A copy of a list of terms.
fn copy_terms(v: &Vec<NormalizedTerm>) -> (r: Vec<NormalizedTerm>)
    ensures
        terms_view(r@) == terms_view(v@),
{
    let mut r: Vec<NormalizedTerm> = Vec::new();
    let mut i: usize = 0;
    while i < v.len()
        invariant
            i <= v.len(),
            terms_view(r@) == terms_view(v@.take(i as int)),
        decreases v.len() - i,
    {
        r.push(NormalizedTerm(str_from(v[i].0.as_str())));
        proof {
            assert(terms_view(v@.take(i + 1)) =~= terms_view(v@.take(i as int)).push(v@[i as int].0@));
            assert(terms_view(r@) =~= terms_view(v@.take(i + 1)));
        }
        i = i + 1;
    }
    proof {
        assert(v@.take(v@.len() as int) =~= v@);
    }
    r
}

/// A copy of a query plan.
pub fn copy_plan(p: &QueryPlan) -> (r: QueryPlan)
    ensures
        r@ == p@,
    decreases p,
{
    match p {
        QueryPlan::Term(f, t) => QueryPlan::Term(*f, NormalizedTerm(str_from(t.0.as_str()))),
        QueryPlan::Phrase(f, ts) => QueryPlan::Phrase(*f, copy_terms(ts)),
        QueryPlan::Vector(e, sf) => QueryPlan::Vector(*e, *sf),
        QueryPlan::And(a, b) => QueryPlan::And(Box::new(copy_plan(a)), Box::new(copy_plan(b))),
        QueryPlan::Or(a, b) => QueryPlan::Or(Box::new(copy_plan(a)), Box::new(copy_plan(b))),
        QueryPlan::Empty => QueryPlan::Empty,
    }
}

impl Clone for QueryPlan {
    fn clone(&self) -> (r: Self)
        ensures
            r@ == self@,
    {
        copy_plan(self)
    }
}

/// Characters a term may not hold: control characters, quotes, backslash,
/// slash, parentheses, `$`, `+` and `.`.
pub open spec fn term_char_bad(c: char) -> bool {
    is_ctrl(c) || c == '"' || c == '\'' || c == '\\' || c == '/' || c == '(' || c == ')'
        || c == '$' || c == '+' || c == '.'
}

/// The term built from `s`: refused when empty or holding a character a term
/// may not hold, else its lowercase form.
pub open spec fn term_result(s: Seq<char>) -> Result<Seq<char>, FailClosed> {
    if s.len() == 0 {
        Err(FailClosed::BadPlan)
    } else if exists|i: int| 0 <= i < s.len() && term_char_bad(#[trigger] s[i]) {
        Err(FailClosed::BadPlan)
    } else {
        Ok(lowercase(s))
    }
}

/// The content of the result of building a term.
pub open spec fn term_res_view(r: Result<NormalizedTerm, FailClosed>) -> Result<Seq<char>, FailClosed> {
    match r {
        Ok(t) => Ok(t.0@),
        Err(e) => Err(e),
    }
}

impl NormalizedTerm {
    /// Normalize a term: refuse empty input and operator or control
    /// characters, then lowercase it.
    pub fn new(s: &str) -> (r: Result<Self, FailClosed>)
        ensures
            term_res_view(r) == term_result(s@),
    {
        if s.is_empty() {
            return Err(FailClosed::BadPlan);
        }
        let cs = chars_of(s);
        let mut i: usize = 0;
        while i < cs.len()
            invariant
                i <= cs.len(),
                cs@ == s@,
                forall|j: int| 0 <= j < i ==> !term_char_bad(#[trigger] cs@[j]),
            decreases cs.len() - i,
        {
            let c = cs[i];
            if is_control(c) || c == '"' || c == '\'' || c == '\\' || c == '/' || c == '(' || c == ')'
                || c == '$' || c == '+' || c == '.' {
                return Err(FailClosed::BadPlan);
            }
            i = i + 1;
        }
        Ok(NormalizedTerm(to_lowercase(s)))
    }

    pub fn as_str(&self) -> (r: &str)
        ensures
            r@ == self.0@,
    {
        self.0.as_str()
    }
}

/// Operator characters of query syntaxes: grouping, quotes, escapes, boolean
/// and regex operators, field and path separators.
pub open spec fn is_operator(c: char) -> bool {
    c == '(' || c == ')' || c == '[' || c == ']' || c == '{' || c == '}' || c == '"' || c == '\''
        || c == '\\' || c == '|' || c == '&' || c == '!' || c == '^' || c == '~' || c == '*'
        || c == '?' || c == ':' || c == '/' || c == '<' || c == '>' || c == '$' || c == '+'
        || c == '.'
}

/// Characters a query may not hold: control characters and operators.
pub open spec fn forbidden_char(c: char) -> bool {
    is_ctrl(c) || is_operator(c)
}

/// Whether some character of `s` is forbidden.
pub open spec fn has_forbidden(s: Seq<char>) -> bool {
    exists|i: int| 0 <= i < s.len() && forbidden_char(#[trigger] s[i])
}

/// Whether some character of `s` is a control character.
pub open spec fn has_control(s: Seq<char>) -> bool {
    exists|i: int| 0 <= i < s.len() && is_ctrl(#[trigger] s[i])
}

/// Whether a character is forbidden in a query.
pub fn is_forbidden(c: char) -> (r: bool)
    ensures
        r == forbidden_char(c),
{
    if is_control(c) {
        return true;
    }
    c == '(' || c == ')' || c == '[' || c == ']' || c == '{' || c == '}' || c == '"' || c == '\''
        || c == '\\' || c == '|' || c == '&' || c == '!' || c == '^' || c == '~' || c == '*'
        || c == '?' || c == ':' || c == '/' || c == '<' || c == '>' || c == '$' || c == '+'
        || c == '.'
}

/// Whether some character of `s` is forbidden.
pub fn any_forbidden(s: &str) -> (r: bool)
    ensures
        r == has_forbidden(s@),
{
    let cs = chars_of(s);
    let mut i: usize = 0;
    while i < cs.len()
        invariant
            i <= cs.len(),
            cs@ == s@,
            forall|j: int| 0 <= j < i ==> !forbidden_char(#[trigger] cs@[j]),
        decreases cs.len() - i,
    {
        if is_forbidden(cs[i]) {
            return true;
        }
        i = i + 1;
    }
    false
}

/// Whether some character of `s` is a control character.
fn any_control(s: &str) -> (r: bool)
    ensures
        r == has_control(s@),
{
    let cs = chars_of(s);
    let mut i: usize = 0;
    while i < cs.len()
        invariant
            i <= cs.len(),
            cs@ == s@,
            forall|j: int| 0 <= j < i ==> !is_ctrl(#[trigger] cs@[j]),
        decreases cs.len() - i,
    {
        if is_control(cs[i]) {
            return true;
        }
        i = i + 1;
    }
    false
}

/// Text terms joined by AND, left to right: the first term alone, then each
/// next term AND-ed onto what came before.
pub open spec fn and_chain(terms: Seq<Seq<char>>) -> PlanView
    decreases terms.len(),
{
    if terms.len() == 0 {
        PlanView::Empty
    } else if terms.len() == 1 {
        PlanView::Term(Field::Text, terms[0])
    } else {
        PlanView::And(Box::new(and_chain(terms.drop_last())), Box::new(PlanView::Term(Field::Text, terms.last())))
    }
}

/// The longest query, in bytes, `QueryPlan::parse` accepts.
pub const MAX_QUERY_LEN: usize = 1024;

/// The lowercase forms of a list of words.
pub open spec fn lowercased(ws: Seq<Seq<char>>) -> Seq<Seq<char>> {
    ws.map_values(|w: Seq<char>| lowercase(w))
}

/// The length in bytes of a string's UTF-8 encoding, as `str::len` gives it.
pub open spec fn byte_len(s: Seq<char>) -> usize {
    vstd::utf8::encode_utf8(s).len() as usize
}

/// What `QueryPlan::parse` gives for a raw query.
pub open spec fn parse_result(raw: Seq<char>) -> Result<PlanView, FailClosed> {
    if byte_len(raw) > MAX_QUERY_LEN {
        Err(FailClosed::BadPlan)
    } else if has_control(raw) {
        Err(FailClosed::BadPlan)
    } else if trim(raw).len() == 0 {
        Ok(PlanView::Empty)
    } else if has_forbidden(trim(raw)) {
        Err(FailClosed::BadPlan)
    } else {
        Ok(and_chain(lowercased(words(trim(raw)))))
    }
}

/// The content of the result of parsing.
pub open spec fn plan_res_view(r: Result<QueryPlan, FailClosed>) -> Result<PlanView, FailClosed> {
    match r {
        Ok(p) => Ok(p@),
        Err(e) => Err(e),
    }
}

/// The plan `acc` with one more text term AND-ed on (or the term alone when
/// `acc` is empty).
pub fn push_term(acc: QueryPlan, term: NormalizedTerm) -> (r: QueryPlan)
    ensures
        r@ == (match acc@ {
            PlanView::Empty => PlanView::Term(Field::Text, term.0@),
            _ => PlanView::And(Box::new(acc@), Box::new(PlanView::Term(Field::Text, term.0@))),
        }),
{
    let ghost tv = term.0@;
    let leaf = QueryPlan::Term(Field::Text, term);
    assert(leaf@ == PlanView::Term(Field::Text, tv));
    match acc {
        QueryPlan::Empty => leaf,
        acc => QueryPlan::And(Box::new(acc), Box::new(leaf)),
    }
}

impl QueryPlan {
    /// Parse raw user input into an eval-free AST. Rejects operator chars,
    /// control chars, and overlong input.
    pub fn parse(raw: &str) -> (r: Result<Self, FailClosed>)
        ensures
            plan_res_view(r) == parse_result(raw@),
    {
        if raw.len() > MAX_QUERY_LEN {
            return Err(FailClosed::BadPlan);
        }
        // Control characters are refused before trimming, which would hide
        // them at either end.
        if any_control(raw) {
            return Err(FailClosed::BadPlan);
        }
        let trimmed = trim_str(raw);
        if trimmed.as_str().is_empty() {
            let e = QueryPlan::Empty;
            assert(e@ == PlanView::Empty);
            return Ok(e);
        }
        if any_forbidden(trimmed.as_str()) {
            return Err(FailClosed::BadPlan);
        }
        let ws = split_whitespace(trimmed.as_str());
        let ghost t = trimmed@;
        proof {
            let p = |c: char| !forbidden_char(c);
            assert forall|i: int| 0 <= i < t.len() implies p(t[i]) by {
                assert(!forbidden_char(t[i]));
            }
            lemma_words_chars(t, p);
        }
        let mut plan = QueryPlan::Empty;
        let mut i: usize = 0;
        while i < ws.len()
            invariant
                i <= ws.len(),
                strings_view(ws@) == words(t),
                forall|k: int| 0 <= k < words(t).len() ==> #[trigger] words(t)[k].len() > 0,
                forall|k: int, j: int| 0 <= k < words(t).len() && 0 <= j < words(t)[k].len()
                    ==> !forbidden_char(#[trigger] words(t)[k][j]),
                plan@ == and_chain(lowercased(words(t)).take(i as int)),
            decreases ws.len() - i,
        {
            let w = ws[i].as_str();
            proof {
                assert(w@ == words(t)[i as int]);
                assert(w@.len() > 0);
                assert forall|j: int| 0 <= j < w@.len() implies !term_char_bad(#[trigger] w@[j]) by {
                    assert(!forbidden_char(words(t)[i as int][j]));
                }
            }
            let term = match NormalizedTerm::new(w) {
                Ok(term) => term,
                Err(e) => return Err(e),
            };
            proof {
                let l = lowercased(words(t));
                assert(l.take(i + 1).drop_last() =~= l.take(i as int));
                assert(term.0@ == l[i as int]);
                if i > 0 {
                    assert(and_chain(l.take(i as int)) !is Empty);
                }
            }
            plan = push_term(plan, term);
            i = i + 1;
        }
        proof {
            assert(lowercased(words(t)).take(ws@.len() as int) =~= lowercased(words(t)));
        }
        Ok(plan)
    }

    /// The plan that matches everything in scope.
    pub fn empty() -> (r: Self)
        ensures
            r@ == PlanView::Empty,
    {
        QueryPlan::Empty
    }
}

} // verus!
