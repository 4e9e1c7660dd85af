//! JavaScript to semantic terms: each statement is matched against a
//! registry of strategies, one per supported JS feature; what no strategy
//! covers becomes an escalation record instead of a guess.
use vstd::prelude::*;
use crate::escalation::{EscalationRecord, EscalationView, InferenceLevel};
use crate::text::{push_str, str_from, strings_view, u64_decimal, decimal};
use swc_common::{BytePos, Spanned};
use swc_ecma_ast::{CallExpr, Callee, Decl, Expr, Module, ModuleItem, Stmt};
use swc_ecma_parser::{Lexer, Parser, StringInput, Syntax, TsSyntax};

verus! {

#[verifier::external_type_specification]
#[verifier::external_body]
pub struct ExModule(swc_ecma_ast::Module);

/// The features of a statement the strategies tell apart.
#[derive(Debug, Clone, Copy, PartialEq, Eq, Structural)]
pub enum StmtShape {
    VarDecl,
    FnDecl,
    ArrowExpr,
    MemberExpr,
    MethodCallExpr,
    TemplateExpr,
    If,
    For,
    ForIn,
    ForOf,
    While,
    DoWhile,
    Other,
}

/// The first level of a JavaScript expression.
#[derive(Debug, Clone, Copy, PartialEq, Eq, Structural)]
pub enum ExprHead {
    Arrow,
    Member,
    Template,
    Call,
    Other,
}

/// The first level of a JavaScript statement.
#[derive(Debug, Clone, Copy, PartialEq, Eq, Structural)]
pub enum StmtHead {
    VarDecl,
    FnDecl,
    Expr,
    If,
    For,
    ForIn,
    ForOf,
    While,
    DoWhile,
    Other,
}

/// A parsed module item, as far as the transpiler reads it: a module
/// declaration, or a statement with its first level, the first level of its
/// expression (for an expression statement), and the first level of the
/// callee (for a call whose callee is an expression); each with the item's
/// `Debug` text.
pub enum JsItemView {
    ModuleDecl { debug: Seq<char> },
    Stmt { head: StmtHead, expr: Option<ExprHead>, callee: Option<ExprHead>, debug: Seq<char> },
}

/// The statement head of an item; `None` for a module declaration.
pub open spec fn head_of(it: JsItemView) -> Option<StmtHead> {
    match it {
        JsItemView::ModuleDecl { .. } => None,
        JsItemView::Stmt { head, .. } => Some(head),
    }
}

/// The expression head of an item.
pub open spec fn expr_of(it: JsItemView) -> Option<ExprHead> {
    match it {
        JsItemView::ModuleDecl { .. } => None,
        JsItemView::Stmt { expr, .. } => expr,
    }
}

/// The callee head of an item.
pub open spec fn callee_of(it: JsItemView) -> Option<ExprHead> {
    match it {
        JsItemView::ModuleDecl { .. } => None,
        JsItemView::Stmt { callee, .. } => callee,
    }
}

/// The `Debug` text of an item.
pub open spec fn debug_of(it: JsItemView) -> Seq<char> {
    match it {
        JsItemView::ModuleDecl { debug } => debug,
        JsItemView::Stmt { debug, .. } => debug,
    }
}

/// Errors from transpiling.
#[derive(Debug, Clone, PartialEq, Eq)]
pub enum TranspileError {
    ParseError { line: usize, col: usize, message: String },
}

/// The text of a transpile error.
pub open spec fn error_text(e: TranspileError) -> Seq<char> {
    match e {
        TranspileError::ParseError { line, col, message } => "Parse error at line "@ + decimal(line as nat)
            + ", col "@ + decimal(col as nat) + ": "@ + message@,
    }
}

impl TranspileError {
    /// The human-readable text of the error.
    pub fn message(&self) -> (r: String)
        requires
            match self {
                TranspileError::ParseError { line, col, .. } => *line <= u64::MAX && *col <= u64::MAX,
            },
        ensures
            r@ == error_text(*self),
    {
        match self {
            TranspileError::ParseError { line, col, message } => {
                let mut s = str_from("Parse error at line ");
                let l = u64_decimal(*line as u64);
                push_str(&mut s, l.as_str());
                push_str(&mut s, ", col ");
                let c = u64_decimal(*col as u64);
                push_str(&mut s, c.as_str());
                push_str(&mut s, ": ");
                push_str(&mut s, message.as_str());
                s
            },
        }
    }
}

/// What swc gives for a source text parsed as a TypeScript module: its
/// items, or the error's span start and end offsets and message.
pub uninterp spec fn js_parse(source: Seq<char>) -> Result<Seq<JsItemView>, (usize, usize, Seq<char>)>;

/// The items a parsed module holds, in source order.
pub uninterp spec fn module_view(m: Module) -> Seq<JsItemView>;

/// Parses source text as a TypeScript/JavaScript module.
///
/// Trusted: runs swc's `Lexer::new` (TypeScript syntax, default target, the
/// whole text) and `Parser::parse_module`, which depend on the text alone.
/// It claims that a parsed module holds the items `js_parse` names for the
/// text, and that a failure comes back as that name's span start and end
/// offsets and `SyntaxError::msg`.
#[verifier::external_body]
fn swc_parse_module(source: &str) -> (r: Result<Module, (usize, usize, String)>)
    ensures
        match r {
            Ok(m) => js_parse(source@) == Ok::<Seq<JsItemView>, (usize, usize, Seq<char>)>(module_view(m)),
            Err((line, col, message)) => js_parse(source@) == Err::<Seq<JsItemView>, (usize, usize, Seq<char>)>(
                (line, col, message@),
            ),
        },
{
    let input = StringInput::new(source, BytePos(0), BytePos(source.len() as u32));
    let lexer = Lexer::new(Syntax::Typescript(TsSyntax::default()), Default::default(), input, None);
    match Parser::new_from(lexer).parse_module() {
        Ok(m) => Ok(m),
        Err(e) => Err((e.span().lo.0 as usize, e.span().hi.0 as usize, e.kind().msg().to_string())),
    }
}

/// The number of items of a module.
///
/// Trusted: the length of the module's `body`.
#[verifier::external_body]
fn module_len(m: &Module) -> (r: usize)
    ensures
        r == module_view(*m).len(),
{
    m.body.len()
}

/// The statement head of item `i`, or `None` for a module declaration.
///
/// Trusted: tells apart `ModuleItem::ModuleDecl`, `Stmt::Decl` holding
/// `Decl::Var` or `Decl::Fn`, `Stmt::Expr`, and the `If`, `For`, `ForIn`,
/// `ForOf`, `While` and `DoWhile` statements; the other statements are
/// `Other`.
#[verifier::external_body]
fn item_head(m: &Module, i: usize) -> (r: Option<StmtHead>)
    requires
        i < module_view(*m).len(),
    ensures
        r == head_of(module_view(*m)[i as int]),
{
    match &m.body[i] {
        ModuleItem::ModuleDecl(_) => None,
        ModuleItem::Stmt(s) => Some(match s {
            Stmt::Decl(Decl::Var(_)) => StmtHead::VarDecl,
            Stmt::Decl(Decl::Fn(_)) => StmtHead::FnDecl,
            Stmt::Expr(_) => StmtHead::Expr,
            Stmt::If(_) => StmtHead::If,
            Stmt::For(_) => StmtHead::For,
            Stmt::ForIn(_) => StmtHead::ForIn,
            Stmt::ForOf(_) => StmtHead::ForOf,
            Stmt::While(_) => StmtHead::While,
            Stmt::DoWhile(_) => StmtHead::DoWhile,
            _ => StmtHead::Other,
        }),
    }
}

/// The head of the expression of item `i`, where it is an expression
/// statement.
///
/// Trusted: tells apart `Expr::Arrow`, `Expr::Member`, `Expr::Tpl` and
/// `Expr::Call`; the other expressions are `Other`.
#[verifier::external_body]
fn item_expr(m: &Module, i: usize) -> (r: Option<ExprHead>)
    requires
        i < module_view(*m).len(),
    ensures
        r == expr_of(module_view(*m)[i as int]),
{
    match &m.body[i] {
        ModuleItem::Stmt(Stmt::Expr(e)) => Some(match &*e.expr {
            Expr::Arrow(_) => ExprHead::Arrow,
            Expr::Member(_) => ExprHead::Member,
            Expr::Tpl(_) => ExprHead::Template,
            Expr::Call(_) => ExprHead::Call,
            _ => ExprHead::Other,
        }),
        _ => None,
    }
}

/// The head of the callee of item `i`, where it is an expression statement
/// whose expression is a call with an expression as callee.
///
/// Trusted: tells apart `Callee::Expr` and, inside it, the same expression
/// variants as `item_expr`.
#[verifier::external_body]
fn item_callee(m: &Module, i: usize) -> (r: Option<ExprHead>)
    requires
        i < module_view(*m).len(),
    ensures
        r == callee_of(module_view(*m)[i as int]),
{
    match &m.body[i] {
        ModuleItem::Stmt(Stmt::Expr(e)) => match &*e.expr {
            Expr::Call(CallExpr { callee: Callee::Expr(x), .. }) => Some(match &**x {
                Expr::Arrow(_) => ExprHead::Arrow,
                Expr::Member(_) => ExprHead::Member,
                Expr::Tpl(_) => ExprHead::Template,
                Expr::Call(_) => ExprHead::Call,
                _ => ExprHead::Other,
            }),
            _ => None,
        },
        _ => None,
    }
}

/// The `Debug` text of item `i`: of the statement, or of the module
/// declaration.
///
/// Trusted: formats the item's content with `{:?}`.
#[verifier::external_body]
fn item_debug(m: &Module, i: usize) -> (r: String)
    requires
        i < module_view(*m).len(),
    ensures
        r@ == debug_of(module_view(*m)[i as int]),
{
    match &m.body[i] {
        ModuleItem::Stmt(s) => format!("{:?}", s),
        ModuleItem::ModuleDecl(d) => format!("{:?}", d),
    }
}

/// The shape of a statement with the given heads: an expression statement
/// is an arrow function, a property access, a method call (a call whose
/// callee is a property access) or a template literal, or else `Other`.
pub open spec fn head_shape(head: StmtHead, expr: Option<ExprHead>, callee: Option<ExprHead>) -> StmtShape {
    match head {
        StmtHead::VarDecl => StmtShape::VarDecl,
        StmtHead::FnDecl => StmtShape::FnDecl,
        StmtHead::If => StmtShape::If,
        StmtHead::For => StmtShape::For,
        StmtHead::ForIn => StmtShape::ForIn,
        StmtHead::ForOf => StmtShape::ForOf,
        StmtHead::While => StmtShape::While,
        StmtHead::DoWhile => StmtShape::DoWhile,
        StmtHead::Other => StmtShape::Other,
        StmtHead::Expr => match expr {
            Some(ExprHead::Arrow) => StmtShape::ArrowExpr,
            Some(ExprHead::Member) => StmtShape::MemberExpr,
            Some(ExprHead::Template) => StmtShape::TemplateExpr,
            Some(ExprHead::Call) => if callee == Some(ExprHead::Member) {
                StmtShape::MethodCallExpr
            } else {
                StmtShape::Other
            },
            _ => StmtShape::Other,
        },
    }
}

/// The shape of a statement from its heads.
pub fn stmt_shape(head: StmtHead, expr: Option<ExprHead>, callee: Option<ExprHead>) -> (r: StmtShape)
    ensures
        r == head_shape(head, expr, callee),
{
    match head {
        StmtHead::VarDecl => StmtShape::VarDecl,
        StmtHead::FnDecl => StmtShape::FnDecl,
        StmtHead::If => StmtShape::If,
        StmtHead::For => StmtShape::For,
        StmtHead::ForIn => StmtShape::ForIn,
        StmtHead::ForOf => StmtShape::ForOf,
        StmtHead::While => StmtShape::While,
        StmtHead::DoWhile => StmtShape::DoWhile,
        StmtHead::Other => StmtShape::Other,
        StmtHead::Expr => match expr {
            Some(ExprHead::Arrow) => StmtShape::ArrowExpr,
            Some(ExprHead::Member) => StmtShape::MemberExpr,
            Some(ExprHead::Template) => StmtShape::TemplateExpr,
            Some(ExprHead::Call) => match callee {
                Some(ExprHead::Member) => StmtShape::MethodCallExpr,
                _ => StmtShape::Other,
            },
            _ => StmtShape::Other,
        },
    }
}

/// A transpilation strategy: one supported JS feature.
#[derive(Debug, Clone, Copy, PartialEq, Eq, Structural)]
pub enum Strategy {
    VarDecl,
    FuncDecl,
    ArrowFunc,
    IfElse,
    ForLoop,
    WhileLoop,
    PropertyAccess,
    MethodCall,
    TemplateLit,
}

/// The name of the feature a strategy covers.
pub open spec fn strategy_kind(k: Strategy) -> Seq<char> {
    match k {
        Strategy::VarDecl => "variable_declaration"@,
        Strategy::FuncDecl => "function_declaration"@,
        Strategy::ArrowFunc => "arrow_function"@,
        Strategy::IfElse => "if_else"@,
        Strategy::ForLoop => "for_loop"@,
        Strategy::WhileLoop => "while_loop"@,
        Strategy::PropertyAccess => "property_access"@,
        Strategy::MethodCall => "method_call"@,
        Strategy::TemplateLit => "template_literal"@,
    }
}

/// Whether a strategy covers a statement of the given shape.
pub open spec fn covers(k: Strategy, s: StmtShape) -> bool {
    match k {
        Strategy::VarDecl => s == StmtShape::VarDecl,
        Strategy::FuncDecl => s == StmtShape::FnDecl,
        Strategy::ArrowFunc => s == StmtShape::ArrowExpr,
        Strategy::IfElse => s == StmtShape::If,
        Strategy::ForLoop => s == StmtShape::For || s == StmtShape::ForIn || s == StmtShape::ForOf,
        Strategy::WhileLoop => s == StmtShape::While || s == StmtShape::DoWhile,
        Strategy::PropertyAccess => s == StmtShape::MemberExpr,
        Strategy::MethodCall => s == StmtShape::MethodCallExpr,
        Strategy::TemplateLit => s == StmtShape::TemplateExpr,
    }
}

impl Strategy {
    /// The name of the JS feature (e.g. "variable_declaration").
    pub fn kind(&self) -> (r: &'static str)
        ensures
            r@ == strategy_kind(*self),
    {
        match self {
            Strategy::VarDecl => "variable_declaration",
            Strategy::FuncDecl => "function_declaration",
            Strategy::ArrowFunc => "arrow_function",
            Strategy::IfElse => "if_else",
            Strategy::ForLoop => "for_loop",
            Strategy::WhileLoop => "while_loop",
            Strategy::PropertyAccess => "property_access",
            Strategy::MethodCall => "method_call",
            Strategy::TemplateLit => "template_literal",
        }
    }

    /// Build the terms of a statement this strategy covers. No statement
    /// fails to build.
    pub fn build(&self, shape: StmtShape) -> (r: Result<(), TranspileError>)
        ensures
            r is Ok,
    {
        let _ = shape;
        Ok(())
    }

    /// Does this strategy apply to a statement of this shape?
    pub fn applies(&self, shape: StmtShape) -> (r: bool)
        ensures
            r == covers(*self, shape),
    {
        match self {
            Strategy::VarDecl => shape == StmtShape::VarDecl,
            Strategy::FuncDecl => shape == StmtShape::FnDecl,
            Strategy::ArrowFunc => shape == StmtShape::ArrowExpr,
            Strategy::IfElse => shape == StmtShape::If,
            Strategy::ForLoop => shape == StmtShape::For || shape == StmtShape::ForIn || shape == StmtShape::ForOf,
            Strategy::WhileLoop => shape == StmtShape::While || shape == StmtShape::DoWhile,
            Strategy::PropertyAccess => shape == StmtShape::MemberExpr,
            Strategy::MethodCall => shape == StmtShape::MethodCallExpr,
            Strategy::TemplateLit => shape == StmtShape::TemplateExpr,
        }
    }
}

/// The strategies registered by default, in order.
pub open spec fn default_strategies() -> Seq<Strategy> {
    seq![
        Strategy::VarDecl,
        Strategy::FuncDecl,
        Strategy::ArrowFunc,
        Strategy::IfElse,
        Strategy::ForLoop,
        Strategy::WhileLoop,
        Strategy::PropertyAccess,
        Strategy::MethodCall,
        Strategy::TemplateLit,
    ]
}

/// The first strategy of `ks` that covers `s`.
pub open spec fn first_covering(ks: Seq<Strategy>, s: StmtShape) -> Option<Strategy>
    decreases ks.len(),
{
    if ks.len() == 0 {
        None
    } else if covers(ks[0], s) {
        Some(ks[0])
    } else {
        first_covering(ks.drop_first(), s)
    }
}

/// Registry of transpilation strategies, tried in order.
pub struct StrategyRegistry {
    strategies: Vec<Strategy>,
}

impl View for StrategyRegistry {
    type V = Seq<Strategy>;

    closed spec fn view(&self) -> Seq<Strategy> {
        self.strategies@
    }
}

impl StrategyRegistry {
    /// A registry with the default strategies.
    pub fn new() -> (r: Self)
        ensures
            r@ == default_strategies(),
    {
        let mut registry = StrategyRegistry { strategies: Vec::new() };
        registry.register_defaults();
        proof {
            assert(registry.strategies@ =~= default_strategies());
        }
        registry
    }

    fn register_defaults(&mut self)
        ensures
            final(self)@ == old(self)@ + default_strategies(),
    {
        self.strategies.push(Strategy::VarDecl);
        self.strategies.push(Strategy::FuncDecl);
        self.strategies.push(Strategy::ArrowFunc);
        self.strategies.push(Strategy::IfElse);
        self.strategies.push(Strategy::ForLoop);
        self.strategies.push(Strategy::WhileLoop);
        self.strategies.push(Strategy::PropertyAccess);
        self.strategies.push(Strategy::MethodCall);
        self.strategies.push(Strategy::TemplateLit);
        proof {
            assert(self.strategies@ =~= old(self).strategies@ + default_strategies());
        }
    }

    /// The first strategy that applies to a statement of this shape.
    pub fn find_strategy(&self, shape: StmtShape) -> (r: Option<Strategy>)
        ensures
            r == first_covering(self@, shape),
    {
        proof {
            assert(self.strategies@.skip(0) =~= self.strategies@);
        }
        let mut i: usize = 0;
        while i < self.strategies.len()
            invariant
                i <= self.strategies.len(),
                first_covering(self.strategies@, shape) == first_covering(self.strategies@.skip(i as int), shape),
            decreases self.strategies.len() - i,
        {
            proof {
                assert(self.strategies@.skip(i as int).drop_first() =~= self.strategies@.skip(i + 1));
            }
            if self.strategies[i].applies(shape) {
                return Some(self.strategies[i]);
            }
            i = i + 1;
        }
        proof {
            assert(self.strategies@.skip(i as int) =~= Seq::<Strategy>::empty());
        }
        None
    }

    /// Add a strategy, tried after the ones before it.
    pub fn register(&mut self, strategy: Strategy)
        ensures
            final(self)@ == old(self)@.push(strategy),
    {
        self.strategies.push(strategy);
    }
}

impl Default for StrategyRegistry {
    fn default() -> (r: Self)
        ensures
            r@ == default_strategies(),
    {
        Self::new()
    }
}

/// A module item, as the transpiler reads it.
pub enum ItemView {
    Stmt { shape: StmtShape, debug: Seq<char> },
    ModuleDecl { debug: Seq<char> },
}

/// What one item gives: a term, or an escalation.
pub open spec fn item_outcome(ks: Seq<Strategy>, item: ItemView) -> Result<Seq<char>, EscalationView> {
    match item {
        ItemView::ModuleDecl { debug } => Err(EscalationView {
            reason: "Module declaration encountered"@,
            level: InferenceLevel::Fuzzy,
            blocked_by: Seq::empty(),
            evidence_paths: seq![debug],
            possible_capabilities: Seq::empty(),
            allowed_outputs: seq!["skip_module_declaration"@],
        }),
        ItemView::Stmt { shape, debug } => match first_covering(ks, shape) {
            Some(k) => Ok(strategy_kind(k)),
            None => Err(EscalationView {
                reason: "No transpile strategy for statement kind: "@ + debug,
                level: InferenceLevel::Blackbox,
                blocked_by: Seq::empty(),
                evidence_paths: seq![debug],
                possible_capabilities: Seq::empty(),
                allowed_outputs: seq!["skip_unsupported"@],
            }),
        },
    }
}

/// The terms of a list of items, in order.
pub open spec fn terms_of(ks: Seq<Strategy>, items: Seq<ItemView>) -> Seq<Seq<char>>
    decreases items.len(),
{
    if items.len() == 0 {
        Seq::empty()
    } else {
        match item_outcome(ks, items.last()) {
            Ok(t) => terms_of(ks, items.drop_last()).push(t),
            Err(_) => terms_of(ks, items.drop_last()),
        }
    }
}

/// The escalations of a list of items, in order.
pub open spec fn escalations_of(ks: Seq<Strategy>, items: Seq<ItemView>) -> Seq<EscalationView>
    decreases items.len(),
{
    if items.len() == 0 {
        Seq::empty()
    } else {
        match item_outcome(ks, items.last()) {
            Ok(_) => escalations_of(ks, items.drop_last()),
            Err(e) => escalations_of(ks, items.drop_last()).push(e),
        }
    }
}

/// Result of transpilation.
#[derive(Debug)]
pub struct TranspileResult {
    /// Names of strategies that were applied.
    pub terms: Vec<String>,
    /// Escalation records for uncertain parts.
    pub escalations: Vec<EscalationRecord>,
}

/// The content of a list of escalation records.
pub open spec fn escalations_view(v: Seq<EscalationRecord>) -> Seq<EscalationView> {
    v.map_values(|e: EscalationRecord| e@)
}

/// Whether a result holds what the items give under the strategies `ks`.
pub open spec fn result_of(r: TranspileResult, ks: Seq<Strategy>, items: Seq<ItemView>) -> bool {
    &&& strings_view(r.terms@) == terms_of(ks, items)
    &&& escalations_view(r.escalations@) == escalations_of(ks, items)
}

/// Transpile one statement: record the kind of the first strategy that
/// applies, or escalate.
pub fn transpile_stmt(
    shape: StmtShape,
    debug: &str,
    registry: &StrategyRegistry,
    escalations: &mut Vec<EscalationRecord>,
    terms: &mut Vec<String>,
) -> (r: Result<(), TranspileError>)
    ensures
        r is Ok,
        match item_outcome(registry@, ItemView::Stmt { shape, debug: debug@ }) {
            Ok(t) => strings_view(final(terms)@) == strings_view(old(terms)@).push(t)
                && final(escalations)@ == old(escalations)@,
            Err(e) => escalations_view(final(escalations)@) == escalations_view(old(escalations)@).push(e)
                && final(terms)@ == old(terms)@,
        },
{
    if let Some(strategy) = registry.find_strategy(shape) {
        strategy.build(shape)?;
        let ghost before = strings_view(terms@);
        terms.push(str_from(strategy.kind()));
        proof {
            assert(strings_view(terms@) =~= before.push(strategy_kind(strategy)));
        }
    } else {
        let mut reason = str_from("No transpile strategy for statement kind: ");
        push_str(&mut reason, debug);
        let rec = EscalationRecord::new(reason.as_str(), InferenceLevel::Blackbox).evidence(debug).allowed_output(
            "skip_unsupported",
        );
        let ghost before = escalations_view(escalations@);
        escalations.push(rec);
        proof {
            reveal_strlit("skip_unsupported");
            assert(rec@.evidence_paths =~= seq![debug@]);
            assert(rec@.allowed_outputs =~= seq!["skip_unsupported"@]);
            assert(escalations_view(escalations@) =~= before.push(rec@));
        }
    }
    Ok(())
}

/// Transpile a list of items with a registry: every statement gives a term
/// or an escalation, every module declaration an escalation.
pub fn transpile_items(items: &[(Option<StmtShape>, String)], registry: &StrategyRegistry) -> (r: TranspileResult)
    ensures
        result_of(r, registry@, items_view(items@)),
{
    let mut escalations: Vec<EscalationRecord> = Vec::new();
    let mut terms: Vec<String> = Vec::new();
    let mut i: usize = 0;
    while i < items.len()
        invariant
            i <= items.len(),
            strings_view(terms@) == terms_of(registry@, items_view(items@).take(i as int)),
            escalations_view(escalations@) == escalations_of(registry@, items_view(items@).take(i as int)),
        decreases items.len() - i,
    {
        proof {
            let v = items_view(items@);
            assert(v.take(i + 1).drop_last() =~= v.take(i as int));
            assert(v.take(i + 1).last() == v[i as int]);
        }
        match items[i].0 {
            Some(shape) => {
                let _ = transpile_stmt(shape, items[i].1.as_str(), registry, &mut escalations, &mut terms);
            },
            None => {
                let rec = EscalationRecord::new("Module declaration encountered", InferenceLevel::Fuzzy).evidence(
                    items[i].1.as_str(),
                ).allowed_output("skip_module_declaration");
                let ghost before = escalations_view(escalations@);
                escalations.push(rec);
                proof {
                    assert(rec@.evidence_paths =~= seq![items@[i as int].1@]);
                    assert(rec@.allowed_outputs =~= seq!["skip_module_declaration"@]);
                    assert(escalations_view(escalations@) =~= before.push(rec@));
                }
            },
        }
        i = i + 1;
    }
    proof {
        assert(items_view(items@).take(items@.len() as int) =~= items_view(items@));
    }
    TranspileResult { terms, escalations }
}

/// The items of a module as the transpiler reads them: a statement's shape
/// (or none for a module declaration) with the item's `Debug` text.
pub open spec fn items_view(items: Seq<(Option<StmtShape>, String)>) -> Seq<ItemView> {
    items.map_values(|it: (Option<StmtShape>, String)| match it.0 {
        Some(shape) => ItemView::Stmt { shape, debug: it.1@ },
        None => ItemView::ModuleDecl { debug: it.1@ },
    })
}

/// The item a parsed module item is read as: a statement's shape, or a
/// module declaration, with its `Debug` text.
pub open spec fn item_view(it: JsItemView) -> ItemView {
    match it {
        JsItemView::ModuleDecl { debug } => ItemView::ModuleDecl { debug },
        JsItemView::Stmt { head, expr, callee, debug } => ItemView::Stmt {
            shape: head_shape(head, expr, callee),
            debug,
        },
    }
}

/// The items of a parsed module as the transpiler reads them.
pub open spec fn parsed_items(its: Seq<JsItemView>) -> Seq<ItemView> {
    its.map_values(|it: JsItemView| item_view(it))
}

/// Parse JavaScript (TypeScript syntax) source into a module.
pub fn parse_js(source: &str) -> (r: Result<Module, TranspileError>)
    ensures
        r is Ok <==> js_parse(source@) is Ok,
        r matches Ok(m) ==> js_parse(source@) == Ok::<Seq<JsItemView>, (usize, usize, Seq<char>)>(module_view(m)),
        r matches Err(TranspileError::ParseError { line, col, message })
            ==> js_parse(source@) == Err::<Seq<JsItemView>, (usize, usize, Seq<char>)>((line, col, message@)),
{
    match swc_parse_module(source) {
        Ok(m) => Ok(m),
        Err((line, col, message)) => Err(TranspileError::ParseError { line, col, message }),
    }
}

/// Transpile a parsed module: each statement item is read as its shape,
/// then every item gives a term or an escalation under the default
/// strategies.
pub fn transpile_module(module: &Module) -> (r: TranspileResult)
    ensures
        result_of(r, default_strategies(), parsed_items(module_view(*module))),
{
    let ghost its = module_view(*module);
    let registry = StrategyRegistry::new();
    let n = module_len(module);
    let mut items: Vec<(Option<StmtShape>, String)> = Vec::new();
    let mut i: usize = 0;
    while i < n
        invariant
            n == its.len(),
            its == module_view(*module),
            i <= n,
            items_view(items@) == parsed_items(its.take(i as int)),
        decreases n - i,
    {
        let debug = item_debug(module, i);
        let entry = match item_head(module, i) {
            None => (None, debug),
            Some(head) => {
                let expr = item_expr(module, i);
                let callee = item_callee(module, i);
                (Some(stmt_shape(head, expr, callee)), debug)
            },
        };
        let ghost before = items@;
        items.push(entry);
        proof {
            assert(items@ =~= before.push(entry));
            assert(its.take(i + 1) =~= its.take(i as int).push(its[i as int]));
            assert(items_view(items@) =~= items_view(before).push(item_view(its[i as int])));
            assert(parsed_items(its.take(i + 1)) =~= parsed_items(its.take(i as int)).push(item_view(its[i as int])));
        }
        i = i + 1;
    }
    proof {
        assert(its.take(n as int) =~= its);
    }
    transpile_items(items.as_slice(), &registry)
}

/// Transpile JavaScript source into semantic terms, with escalation records
/// for what no strategy covers.
pub fn transpile(source: &str) -> (r: Result<TranspileResult, TranspileError>)
    ensures
        r is Ok <==> js_parse(source@) is Ok,
        r matches Ok(res) ==> js_parse(source@) matches Ok(its) && result_of(res, default_strategies(), parsed_items(its)),
        r matches Err(TranspileError::ParseError { line, col, message })
            ==> js_parse(source@) == Err::<Seq<JsItemView>, (usize, usize, Seq<char>)>((line, col, message@)),
{
    let module = match parse_js(source) {
        Ok(m) => m,
        Err(e) => return Err(e),
    };
    Ok(transpile_module(&module))
}

/// Each kind of statement is covered by at most one default strategy, so
/// the order of the defaults decides nothing.
pub proof fn law_default_strategies_disjoint(s: StmtShape, i: int, j: int)
    requires
        0 <= i < j < default_strategies().len(),
        covers(default_strategies()[i], s),
    ensures
        !covers(default_strategies()[j], s),
{
}

} // verus!
