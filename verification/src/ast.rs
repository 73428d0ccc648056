//! The expression and statement trees the parser builds. Child expressions
//! are exclusively owned; the trees are finite and acyclic by construction.
use vstd::prelude::*;
use crate::token::Token;

verus! {

#[derive(Debug)]
pub enum Expr {
    Binary { op: Token, left: Box<Expr>, right: Box<Expr> },
    Unary { op: Token, right: Box<Expr> },
    Int { val: i32 },
    /// The IEEE 754 binary64 bit pattern of the float literal.
    Float { bits: u64 },
    String { val: String },
    Grouping { expr: Box<Expr> },
    Name { val: String },
}

#[derive(Debug)]
pub enum Stmt {
    FunDeclaration { name: Token, params: Vec<Token>, body: Vec<Stmt> },
    Block { stmts: Vec<Stmt> },
    Return { expr: Option<Expr> },
    Expression { expr: Expr },
    Let { name: Token, expr: Expr },
    Print { expr: Expr },
    If { condition: Expr, consequence: Vec<Stmt>, alternative: Option<Vec<Stmt>> },
}

/// Structural equality of expression trees: same shape, equal payloads,
/// text compared by its characters.
pub open spec fn spec_expr_eq(a: &Expr, b: &Expr) -> bool
    decreases a,
{
    match (a, b) {
        (
            Expr::Binary { op: o1, left: l1, right: r1 },
            Expr::Binary { op: o2, left: l2, right: r2 },
        ) => crate::token::spec_token_eq(o1, o2) && spec_expr_eq(&**l1, &**l2) && spec_expr_eq(
            &**r1,
            &**r2,
        ),
        (Expr::Unary { op: o1, right: r1 }, Expr::Unary { op: o2, right: r2 }) =>
            crate::token::spec_token_eq(o1, o2) && spec_expr_eq(&**r1, &**r2),
        (Expr::Int { val: v1 }, Expr::Int { val: v2 }) => v1 == v2,
        (Expr::Float { bits: b1 }, Expr::Float { bits: b2 }) => b1 == b2,
        (Expr::String { val: v1 }, Expr::String { val: v2 }) => v1@ == v2@,
        (Expr::Grouping { expr: e1 }, Expr::Grouping { expr: e2 }) => spec_expr_eq(&**e1, &**e2),
        (Expr::Name { val: v1 }, Expr::Name { val: v2 }) => v1@ == v2@,
        _ => false,
    }
}

/// Structural equality of statements, their token lists and their bodies.
pub open spec fn spec_stmt_eq(a: &Stmt, b: &Stmt) -> bool
    decreases a,
{
    match (a, b) {
        (
            Stmt::FunDeclaration { name: n1, params: p1, body: b1 },
            Stmt::FunDeclaration { name: n2, params: p2, body: b2 },
        ) => crate::token::spec_token_eq(n1, n2) && spec_tokens_eq(p1@, p2@) && spec_stmts_eq(
            b1@,
            b2@,
        ),
        (Stmt::Block { stmts: s1 }, Stmt::Block { stmts: s2 }) => spec_stmts_eq(s1@, s2@),
        (Stmt::Return { expr: e1 }, Stmt::Return { expr: e2 }) => match (e1, e2) {
            (Some(x1), Some(x2)) => spec_expr_eq(x1, x2),
            (None, None) => true,
            _ => false,
        },
        (Stmt::Expression { expr: e1 }, Stmt::Expression { expr: e2 }) => spec_expr_eq(e1, e2),
        (Stmt::Let { name: n1, expr: e1 }, Stmt::Let { name: n2, expr: e2 }) =>
            crate::token::spec_token_eq(n1, n2) && spec_expr_eq(e1, e2),
        (Stmt::Print { expr: e1 }, Stmt::Print { expr: e2 }) => spec_expr_eq(e1, e2),
        (
            Stmt::If { condition: c1, consequence: q1, alternative: a1 },
            Stmt::If { condition: c2, consequence: q2, alternative: a2 },
        ) => spec_expr_eq(c1, c2) && spec_stmts_eq(q1@, q2@) && (match (a1, a2) {
            (Some(x1), Some(x2)) => spec_stmts_eq(x1@, x2@),
            (None, None) => true,
            _ => false,
        }),
        _ => false,
    }
}

/// Pointwise equality of two token sequences.
pub open spec fn spec_tokens_eq(a: Seq<Token>, b: Seq<Token>) -> bool {
    a.len() == b.len() && (forall|i: int|
        0 <= i < a.len() ==> crate::token::spec_token_eq(&a[i], &b[i]))
}

/// Pointwise equality of two statement sequences.
pub open spec fn spec_stmts_eq(a: Seq<Stmt>, b: Seq<Stmt>) -> bool
    decreases a,
{
    a.len() == b.len() && (forall|i: int| 0 <= i < a.len() ==> spec_stmt_eq(&a[i], &b[i]))
}

impl PartialEq for Expr {
    fn eq(&self, other: &Expr) -> (r: bool)
        decreases self,
    {
        match (self, other) {
            (
                Expr::Binary { op: o1, left: l1, right: r1 },
                Expr::Binary { op: o2, left: l2, right: r2 },
            ) => o1.eq(o2) && (&**l1).eq(&**l2) && (&**r1).eq(&**r2),
            (Expr::Unary { op: o1, right: r1 }, Expr::Unary { op: o2, right: r2 }) => o1.eq(o2)
                && (&**r1).eq(&**r2),
            (Expr::Int { val: v1 }, Expr::Int { val: v2 }) => *v1 == *v2,
            (Expr::Float { bits: b1 }, Expr::Float { bits: b2 }) => *b1 == *b2,
            (Expr::String { val: v1 }, Expr::String { val: v2 }) => v1.eq(v2),
            (Expr::Grouping { expr: e1 }, Expr::Grouping { expr: e2 }) => (&**e1).eq(&**e2),
            (Expr::Name { val: v1 }, Expr::Name { val: v2 }) => v1.eq(v2),
            _ => false,
        }
    }
}

impl vstd::std_specs::cmp::PartialEqSpecImpl for Expr {
    open spec fn obeys_eq_spec() -> bool {
        true
    }

    open spec fn eq_spec(&self, other: &Expr) -> bool {
        spec_expr_eq(self, other)
    }
}

/// Compares two statement lists pointwise.
fn stmts_eq(a: &Vec<Stmt>, b: &Vec<Stmt>) -> (r: bool)
    ensures
        r == spec_stmts_eq(a@, b@),
    decreases a@,
{
    if a.len() != b.len() {
        return false;
    }
    let mut i: usize = 0;
    while i < a.len()
        invariant
            0 <= i <= a@.len() == b@.len(),
            forall|k: int| 0 <= k < i ==> spec_stmt_eq(&a@[k], &b@[k]),
        decreases a@.len() - i,
    {
        proof {
            vstd::seq::axiom_seq_index_decreases(a@, i as int);
        }
        if !(&a[i]).eq(&b[i]) {
            return false;
        }
        i = i + 1;
    }
    true
}

/// Compares two token lists pointwise.
fn tokens_eq(a: &Vec<Token>, b: &Vec<Token>) -> (r: bool)
    ensures
        r == spec_tokens_eq(a@, b@),
{
    if a.len() != b.len() {
        return false;
    }
    let mut i: usize = 0;
    while i < a.len()
        invariant
            0 <= i <= a@.len() == b@.len(),
            forall|k: int| 0 <= k < i ==> crate::token::spec_token_eq(&a@[k], &b@[k]),
        decreases a@.len() - i,
    {
        if !(&a[i]).eq(&b[i]) {
            return false;
        }
        i = i + 1;
    }
    true
}

impl PartialEq for Stmt {
    fn eq(&self, other: &Stmt) -> (r: bool)
        decreases self,
    {
        match (self, other) {
            (
                Stmt::FunDeclaration { name: n1, params: p1, body: b1 },
                Stmt::FunDeclaration { name: n2, params: p2, body: b2 },
            ) => n1.eq(n2) && tokens_eq(p1, p2) && stmts_eq(b1, b2),
            (Stmt::Block { stmts: s1 }, Stmt::Block { stmts: s2 }) => stmts_eq(s1, s2),
            (Stmt::Return { expr: e1 }, Stmt::Return { expr: e2 }) => match (e1, e2) {
                (Some(x1), Some(x2)) => x1.eq(x2),
                (None, None) => true,
                _ => false,
            },
            (Stmt::Expression { expr: e1 }, Stmt::Expression { expr: e2 }) => e1.eq(e2),
            (Stmt::Let { name: n1, expr: e1 }, Stmt::Let { name: n2, expr: e2 }) => n1.eq(n2)
                && e1.eq(e2),
            (Stmt::Print { expr: e1 }, Stmt::Print { expr: e2 }) => e1.eq(e2),
            (
                Stmt::If { condition: c1, consequence: q1, alternative: a1 },
                Stmt::If { condition: c2, consequence: q2, alternative: a2 },
            ) => c1.eq(c2) && stmts_eq(q1, q2) && (match (a1, a2) {
                (Some(x1), Some(x2)) => stmts_eq(x1, x2),
                (None, None) => true,
                _ => false,
            }),
            _ => false,
        }
    }
}

impl vstd::std_specs::cmp::PartialEqSpecImpl for Stmt {
    open spec fn obeys_eq_spec() -> bool {
        true
    }

    open spec fn eq_spec(&self, other: &Stmt) -> bool {
        spec_stmt_eq(self, other)
    }
}


/// The mathematical shape of a statement: token lists and bodies as
/// sequences, expressions as they are.
pub enum StmtModel {
    FunDeclaration { name: Token, params: Seq<Token>, body: Seq<StmtModel> },
    Block { stmts: Seq<StmtModel> },
    Return { expr: Option<Expr> },
    Expression { expr: Expr },
    Let { name: Token, expr: Expr },
    Print { expr: Expr },
    If { condition: Expr, consequence: Seq<StmtModel>, alternative: Option<Seq<StmtModel>> },
}

impl Stmt {
    /// The model of a statement.
    pub open spec fn model(&self) -> StmtModel
        decreases self,
    {
        match self {
            Stmt::FunDeclaration { name, params, body } => StmtModel::FunDeclaration {
                name: *name,
                params: params@,
                body: stmts_models(body@),
            },
            Stmt::Block { stmts } => StmtModel::Block { stmts: stmts_models(stmts@) },
            Stmt::Return { expr } => StmtModel::Return { expr: *expr },
            Stmt::Expression { expr } => StmtModel::Expression { expr: *expr },
            Stmt::Let { name, expr } => StmtModel::Let { name: *name, expr: *expr },
            Stmt::Print { expr } => StmtModel::Print { expr: *expr },
            Stmt::If { condition, consequence, alternative } => StmtModel::If {
                condition: *condition,
                consequence: stmts_models(consequence@),
                alternative: match alternative {
                    Some(v) => Some(stmts_models(v@)),
                    None => None,
                },
            },
        }
    }
}

/// The models of a statement sequence.
pub open spec fn stmts_models(ss: Seq<Stmt>) -> Seq<StmtModel>
    decreases ss,
{
    if ss.len() == 0 {
        Seq::empty()
    } else {
        seq![ss[0].model()] + stmts_models(ss.drop_first())
    }
}

/// The model of a pushed statement stands at the end of the models.
pub proof fn lemma_stmts_models_push(ss: Seq<Stmt>, st: Stmt)
    ensures
        stmts_models(ss.push(st)) =~= stmts_models(ss).push(st.model()),
    decreases ss,
{
    if ss.len() == 0 {
        assert(ss.push(st).drop_first() =~= Seq::<Stmt>::empty());
        assert(ss.push(st)[0] == st);
        assert(stmts_models(ss.push(st)) == seq![st.model()] + stmts_models(
            ss.push(st).drop_first(),
        ));
        assert(stmts_models(Seq::<Stmt>::empty()) =~= Seq::<StmtModel>::empty());
        assert(seq![st.model()] + Seq::<StmtModel>::empty() =~= seq![st.model()]);
        assert(stmts_models(ss) =~= Seq::<StmtModel>::empty());
        assert(Seq::<StmtModel>::empty().push(st.model()) =~= seq![st.model()]);
        assert(stmts_models(ss.push(st)) =~= stmts_models(ss).push(st.model()));
    } else {
        assert(ss.push(st).drop_first() =~= ss.drop_first().push(st));
        lemma_stmts_models_push(ss.drop_first(), st);
        assert(ss.push(st)[0] == ss[0]);
        assert(stmts_models(ss.push(st)) == seq![ss[0].model()] + stmts_models(
            ss.drop_first().push(st),
        ));
        assert(seq![ss[0].model()] + stmts_models(ss.drop_first()).push(st.model()) =~= (seq![
            ss[0].model(),
        ] + stmts_models(ss.drop_first())).push(st.model()));
        assert(stmts_models(ss) == seq![ss[0].model()] + stmts_models(ss.drop_first()));
        assert(stmts_models(ss.push(st)) =~= stmts_models(ss).push(st.model()));
    }
}

/// The models of a sequence, element by element.
pub proof fn lemma_stmts_models_len(ss: Seq<Stmt>)
    ensures
        stmts_models(ss).len() == ss.len(),
        forall|i: int| 0 <= i < ss.len() ==> stmts_models(ss)[i] == ss[i].model(),
    decreases ss,
{
    if ss.len() > 0 {
        lemma_stmts_models_len(ss.drop_first());
    }
}

} // verus!
