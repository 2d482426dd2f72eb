//! The syntax tree that the parser builds and the evaluator walks.
use crate::lexer::{ContentView, TokenContentType, TokenType};
use vstd::prelude::*;

verus! {

/// A constant: text, a numeral or a boolean.
#[derive(Debug)]
pub struct Literal {
    pub content: TokenContentType,
}

impl Literal {
    pub fn from(content: TokenContentType) -> (literal: Literal)
        ensures
            literal.content == content,
    {
        Literal { content }
    }
}

/// An array literal: its items in order.
#[derive(Debug)]
pub struct Array {
    pub content: Vec<Ast>,
}

impl Array {
    pub fn from(content: Vec<Ast>) -> (array: Array)
        ensures
            array.content == content,
    {
        Array { content }
    }
}

/// A node of the syntax tree.
#[derive(Debug)]
pub enum Ast {
    Literal(Literal),
    Array(Array),
    /// A name; with an initializer, the statement that binds it.
    Var(String, Option<Box<Ast>>),
    Binary(Box<Ast>, TokenType, Box<Ast>),
    /// Name, parameters, body.
    Func(String, Vec<String>, Vec<Ast>),
    Return(Box<Ast>),
    /// Loop variable, the two bounds, body.
    For(String, Vec<Ast>, Vec<Ast>),
    /// Condition, body.
    While(Box<Ast>, Vec<Ast>),
    /// Condition, body, the clauses that follow.
    Conditional(Box<Ast>, Vec<Ast>, Vec<Ast>),
    /// Variable, field, new value.
    SetField(String, String, Box<Ast>),
    /// Record name and field names.
    Struct(String, Vec<String>),
    /// Record name and the fields given, in the order written.
    Instance(String, Vec<(String, Ast)>),
    Call(Box<Ast>, Vec<Ast>),
    /// Target, key, and whether the key is an expression to evaluate.
    Get(Box<Ast>, Box<Ast>, bool),
    PointGet(Box<Ast>, String),
    Unary(TokenType, Box<Ast>),
    /// The absence of a value.
    Nothing,
}

/// A syntax tree as a mathematical value.
pub enum AstView {
    Literal(ContentView),
    Array(Seq<AstView>),
    Var(Seq<char>, Option<Box<AstView>>),
    Binary(Box<AstView>, TokenType, Box<AstView>),
    Func(Seq<char>, Seq<Seq<char>>, Seq<AstView>),
    Return(Box<AstView>),
    For(Seq<char>, Seq<AstView>, Seq<AstView>),
    While(Box<AstView>, Seq<AstView>),
    Conditional(Box<AstView>, Seq<AstView>, Seq<AstView>),
    SetField(Seq<char>, Seq<char>, Box<AstView>),
    Struct(Seq<char>, Seq<Seq<char>>),
    Instance(Seq<char>, Seq<(Seq<char>, AstView)>),
    Call(Box<AstView>, Seq<AstView>),
    Get(Box<AstView>, Box<AstView>, bool),
    PointGet(Box<AstView>, Seq<char>),
    Unary(TokenType, Box<AstView>),
    Nothing,
}

/// The views of a run of nodes.
pub open spec fn ast_views(nodes: Seq<Ast>) -> Seq<AstView> {
    Seq::new(nodes.len(), |i: int| nodes[i]@)
}

/// The views of a run of names.
pub open spec fn name_views(names: Seq<String>) -> Seq<Seq<char>> {
    Seq::new(names.len(), |i: int| names[i]@)
}

/// The views of a run of named nodes.
pub open spec fn member_views(members: Seq<(String, Ast)>) -> Seq<(Seq<char>, AstView)> {
    Seq::new(members.len(), |i: int| (members[i].0@, members[i].1@))
}

impl Ast {
    #[verifier::opaque]
    pub open spec fn view(&self) -> AstView
        decreases self,
    {
        match self {
            Ast::Literal(l) => AstView::Literal(l.content@),
            Ast::Array(a) => AstView::Array(
                Seq::new(
                    a.content@.len(),
                    |i: int|
                        if 0 <= i < a.content@.len() {
                            a.content@[i].view()
                        } else {
                            AstView::Nothing
                        },
                ),
            ),
            Ast::Var(name, init) => AstView::Var(
                name@,
                match init {
                    Some(e) => Some(Box::new((**e).view())),
                    None => None,
                },
            ),
            Ast::Binary(l, op, r) => AstView::Binary(
                Box::new((**l).view()),
                *op,
                Box::new((**r).view()),
            ),
            Ast::Func(name, params, body) => AstView::Func(
                name@,
                name_views(params@),
                Seq::new(
                    body@.len(),
                    |i: int| if 0 <= i < body@.len() { body@[i].view() } else { AstView::Nothing },
                ),
            ),
            Ast::Return(e) => AstView::Return(Box::new((**e).view())),
            Ast::For(id, range, body) => AstView::For(
                id@,
                Seq::new(
                    range@.len(),
                    |i: int| if 0 <= i < range@.len() { range@[i].view() } else { AstView::Nothing },
                ),
                Seq::new(
                    body@.len(),
                    |i: int| if 0 <= i < body@.len() { body@[i].view() } else { AstView::Nothing },
                ),
            ),
            Ast::While(c, body) => AstView::While(
                Box::new((**c).view()),
                Seq::new(
                    body@.len(),
                    |i: int| if 0 <= i < body@.len() { body@[i].view() } else { AstView::Nothing },
                ),
            ),
            Ast::Conditional(c, body, rest) => AstView::Conditional(
                Box::new((**c).view()),
                Seq::new(
                    body@.len(),
                    |i: int| if 0 <= i < body@.len() { body@[i].view() } else { AstView::Nothing },
                ),
                Seq::new(
                    rest@.len(),
                    |i: int| if 0 <= i < rest@.len() { rest@[i].view() } else { AstView::Nothing },
                ),
            ),
            Ast::SetField(var, field, e) => AstView::SetField(var@, field@, Box::new((**e).view())),
            Ast::Struct(name, fields) => AstView::Struct(name@, name_views(fields@)),
            Ast::Instance(name, members) => AstView::Instance(
                name@,
                Seq::new(
                    members@.len(),
                    |i: int|
                        if 0 <= i < members@.len() {
                            (members@[i].0@, members@[i].1.view())
                        } else {
                            (Seq::empty(), AstView::Nothing)
                        },
                ),
            ),
            Ast::Call(callee, args) => AstView::Call(
                Box::new((**callee).view()),
                Seq::new(
                    args@.len(),
                    |i: int| if 0 <= i < args@.len() { args@[i].view() } else { AstView::Nothing },
                ),
            ),
            Ast::Get(target, key, is_expr) => AstView::Get(
                Box::new((**target).view()),
                Box::new((**key).view()),
                *is_expr,
            ),
            Ast::PointGet(target, field) => AstView::PointGet(Box::new((**target).view()), field@),
            Ast::Unary(op, e) => AstView::Unary(*op, Box::new((**e).view())),
            Ast::Nothing => AstView::Nothing,
        }
    }
}

pub broadcast proof fn lemma_array_view(a: Array)
    ensures
        #[trigger] Ast::Array(a).view() == AstView::Array(ast_views(a.content@)),
{
    reveal(Ast::view);
    assert(Ast::Array(a).view()->Array_0 =~= ast_views(a.content@));
}

pub broadcast proof fn lemma_func_view(name: String, params: Vec<String>, body: Vec<Ast>)
    ensures
        #[trigger] Ast::Func(name, params, body).view() == AstView::Func(
            name@,
            name_views(params@),
            ast_views(body@),
        ),
{
    reveal(Ast::view);
    assert(Ast::Func(name, params, body).view()->Func_2 =~= ast_views(body@));
}

pub broadcast proof fn lemma_for_view(id: String, range: Vec<Ast>, body: Vec<Ast>)
    ensures
        #[trigger] Ast::For(id, range, body).view() == AstView::For(
            id@,
            ast_views(range@),
            ast_views(body@),
        ),
{
    reveal(Ast::view);
    assert(Ast::For(id, range, body).view()->For_1 =~= ast_views(range@));
    assert(Ast::For(id, range, body).view()->For_2 =~= ast_views(body@));
}

pub broadcast proof fn lemma_while_view(c: Box<Ast>, body: Vec<Ast>)
    ensures
        #[trigger] Ast::While(c, body).view() == AstView::While(
            Box::new((*c).view()),
            ast_views(body@),
        ),
{
    reveal(Ast::view);
    assert(Ast::While(c, body).view()->While_1 =~= ast_views(body@));
}

pub broadcast proof fn lemma_conditional_view(c: Box<Ast>, body: Vec<Ast>, rest: Vec<Ast>)
    ensures
        #[trigger] Ast::Conditional(c, body, rest).view() == AstView::Conditional(
            Box::new((*c).view()),
            ast_views(body@),
            ast_views(rest@),
        ),
{
    reveal(Ast::view);
    assert(Ast::Conditional(c, body, rest).view()->Conditional_1 =~= ast_views(body@));
    assert(Ast::Conditional(c, body, rest).view()->Conditional_2 =~= ast_views(rest@));
}

pub broadcast proof fn lemma_instance_view(name: String, members: Vec<(String, Ast)>)
    ensures
        #[trigger] Ast::Instance(name, members).view() == AstView::Instance(
            name@,
            member_views(members@),
        ),
{
    reveal(Ast::view);
    assert(Ast::Instance(name, members).view()->Instance_1 =~= member_views(members@));
}

pub broadcast proof fn lemma_call_view(callee: Box<Ast>, args: Vec<Ast>)
    ensures
        #[trigger] Ast::Call(callee, args).view() == AstView::Call(
            Box::new((*callee).view()),
            ast_views(args@),
        ),
{
    reveal(Ast::view);
    assert(Ast::Call(callee, args).view()->Call_1 =~= ast_views(args@));
}

pub broadcast proof fn lemma_literal_view(l: Literal)
    ensures
        #[trigger] Ast::Literal(l).view() == AstView::Literal(l.content@),
{
    reveal(Ast::view);
}

pub broadcast proof fn lemma_var_view(name: String, init: Option<Box<Ast>>)
    ensures
        #[trigger] Ast::Var(name, init).view() == AstView::Var(
            name@,
            match init {
                Some(e) => Some(Box::new((*e).view())),
                None => None,
            },
        ),
{
    reveal(Ast::view);
}

pub broadcast proof fn lemma_binary_view(l: Box<Ast>, op: TokenType, r: Box<Ast>)
    ensures
        #[trigger] Ast::Binary(l, op, r).view() == AstView::Binary(
            Box::new((*l).view()),
            op,
            Box::new((*r).view()),
        ),
{
    reveal(Ast::view);
}

pub broadcast proof fn lemma_return_view(e: Box<Ast>)
    ensures
        #[trigger] Ast::Return(e).view() == AstView::Return(Box::new((*e).view())),
{
    reveal(Ast::view);
}

pub broadcast proof fn lemma_set_field_view(var: String, field: String, e: Box<Ast>)
    ensures
        #[trigger] Ast::SetField(var, field, e).view() == AstView::SetField(
            var@,
            field@,
            Box::new((*e).view()),
        ),
{
    reveal(Ast::view);
}

pub broadcast proof fn lemma_struct_view(name: String, fields: Vec<String>)
    ensures
        #[trigger] Ast::Struct(name, fields).view() == AstView::Struct(name@, name_views(fields@)),
{
    reveal(Ast::view);
}

pub broadcast proof fn lemma_get_view(target: Box<Ast>, key: Box<Ast>, is_expr: bool)
    ensures
        #[trigger] Ast::Get(target, key, is_expr).view() == AstView::Get(
            Box::new((*target).view()),
            Box::new((*key).view()),
            is_expr,
        ),
{
    reveal(Ast::view);
}

pub broadcast proof fn lemma_point_get_view(target: Box<Ast>, field: String)
    ensures
        #[trigger] Ast::PointGet(target, field).view() == AstView::PointGet(
            Box::new((*target).view()),
            field@,
        ),
{
    reveal(Ast::view);
}

pub broadcast proof fn lemma_unary_view(op: TokenType, e: Box<Ast>)
    ensures
        #[trigger] Ast::Unary(op, e).view() == AstView::Unary(op, Box::new((*e).view())),
{
    reveal(Ast::view);
}

pub broadcast proof fn lemma_nothing_view()
    ensures
        #[trigger] Ast::Nothing.view() == AstView::Nothing,
{
    reveal(Ast::view);
}

/// A node and its view are of the same variant.
pub proof fn lemma_ast_kind(node: Ast)
    ensures
        node@ is Literal <==> node is Literal,
        node@ is Array <==> node is Array,
        node@ is Var <==> node is Var,
        node@ is Binary <==> node is Binary,
        node@ is Func <==> node is Func,
        node@ is Return <==> node is Return,
        node@ is For <==> node is For,
        node@ is While <==> node is While,
        node@ is Conditional <==> node is Conditional,
        node@ is SetField <==> node is SetField,
        node@ is Struct <==> node is Struct,
        node@ is Instance <==> node is Instance,
        node@ is Call <==> node is Call,
        node@ is Get <==> node is Get,
        node@ is PointGet <==> node is PointGet,
        node@ is Unary <==> node is Unary,
        node@ is Nothing <==> node is Nothing,
{
    reveal(Ast::view);
}

pub broadcast proof fn lemma_ast_views_push(nodes: Seq<Ast>, node: Ast)
    ensures
        #[trigger] ast_views(nodes.push(node)) == ast_views(nodes).push(node@),
{
    assert(ast_views(nodes.push(node)) =~= ast_views(nodes).push(node@));
}

pub broadcast proof fn lemma_name_views_push(names: Seq<String>, name: String)
    ensures
        #[trigger] name_views(names.push(name)) == name_views(names).push(name@),
{
    assert(name_views(names.push(name)) =~= name_views(names).push(name@));
}

pub broadcast proof fn lemma_member_views_push(members: Seq<(String, Ast)>, member: (String, Ast))
    ensures
        #[trigger] member_views(members.push(member)) == member_views(members).push(
            (member.0@, member.1@),
        ),
{
    assert(member_views(members.push(member)) =~= member_views(members).push(
        (member.0@, member.1@),
    ));
}

pub broadcast proof fn lemma_views_empty()
    ensures
        #[trigger] ast_views(Seq::<Ast>::empty()) == Seq::<AstView>::empty(),
        #[trigger] name_views(Seq::<String>::empty()) == Seq::<Seq<char>>::empty(),
        #[trigger] member_views(Seq::<(String, Ast)>::empty()) == Seq::<
            (Seq<char>, AstView),
        >::empty(),
{
    assert(ast_views(Seq::<Ast>::empty()) =~= Seq::<AstView>::empty());
    assert(name_views(Seq::<String>::empty()) =~= Seq::<Seq<char>>::empty());
    assert(member_views(Seq::<(String, Ast)>::empty()) =~= Seq::<(Seq<char>, AstView)>::empty());
}

pub broadcast group group_ast_views {
    lemma_literal_view,
    lemma_var_view,
    lemma_binary_view,
    lemma_return_view,
    lemma_set_field_view,
    lemma_struct_view,
    lemma_get_view,
    lemma_point_get_view,
    lemma_unary_view,
    lemma_nothing_view,
    lemma_array_view,
    lemma_func_view,
    lemma_for_view,
    lemma_while_view,
    lemma_conditional_view,
    lemma_instance_view,
    lemma_call_view,
    lemma_ast_views_push,
    lemma_name_views_push,
    lemma_member_views_push,
    lemma_views_empty,
}

/// The tree is one that a parser builds: no node of it is the absent value,
/// and every loop has exactly two bounds.
pub open spec fn well_formed(node: AstView) -> bool
    decreases node,
{
    match node {
        AstView::Literal(_) => true,
        AstView::Array(items) => forall|i: int|
            0 <= i < items.len() ==> well_formed(#[trigger] items[i]),
        AstView::Var(_, init) => match init {
            Some(e) => well_formed(*e),
            None => true,
        },
        AstView::Binary(l, _, r) => well_formed(*l) && well_formed(*r),
        AstView::Func(_, _, body) => forall|i: int|
            0 <= i < body.len() ==> well_formed(#[trigger] body[i]),
        AstView::Return(e) => well_formed(*e),
        AstView::For(_, range, body) => range.len() == 2 && (forall|i: int|
            0 <= i < range.len() ==> well_formed(#[trigger] range[i])) && (forall|i: int|
            0 <= i < body.len() ==> well_formed(#[trigger] body[i])),
        AstView::While(c, body) => well_formed(*c) && (forall|i: int|
            0 <= i < body.len() ==> well_formed(#[trigger] body[i])),
        AstView::Conditional(c, body, rest) => well_formed(*c) && (forall|i: int|
            0 <= i < body.len() ==> well_formed(#[trigger] body[i])) && (forall|i: int|
            0 <= i < rest.len() ==> well_formed(#[trigger] rest[i])),
        AstView::SetField(_, _, e) => well_formed(*e),
        AstView::Struct(_, _) => true,
        AstView::Instance(_, members) => forall|i: int|
            0 <= i < members.len() ==> well_formed((#[trigger] members[i]).1),
        AstView::Call(callee, args) => well_formed(*callee) && (forall|i: int|
            0 <= i < args.len() ==> well_formed(#[trigger] args[i])),
        AstView::Get(target, key, _) => well_formed(*target) && well_formed(*key),
        AstView::PointGet(target, _) => well_formed(*target),
        AstView::Unary(_, e) => well_formed(*e),
        AstView::Nothing => false,
    }
}

/// Each of the trees is one that a parser builds.
pub open spec fn all_well_formed(nodes: Seq<AstView>) -> bool {
    forall|i: int| 0 <= i < nodes.len() ==> well_formed(#[trigger] nodes[i])
}

/// A copy of a run of names.
pub fn copy_names(names: &Vec<String>) -> (copy: Vec<String>)
    ensures
        name_views(copy@) == name_views(names@),
{
    broadcast use group_ast_views;

    let mut copy: Vec<String> = Vec::new();
    let mut i: usize = 0;
    while i < names.len()
        invariant
            i <= names@.len(),
            name_views(copy@) == name_views(names@.take(i as int)),
        decreases names@.len() - i,
    {
        let name = names[i].clone();
        proof {
            assert(names@.take(i + 1) =~= names@.take(i as int).push(names@[i as int]));
            assert(name_views(names@.take(i + 1)) == name_views(names@.take(i as int)).push(name@));
        }
        copy.push(name);
        i += 1;
    }
    proof {
        assert(names@.take(names@.len() as int) =~= names@);
    }
    copy
}

/// A copy of a run of nodes.
#[verifier::loop_isolation(false)]
pub fn copy_asts(nodes: &Vec<Ast>) -> (copy: Vec<Ast>)
    ensures
        ast_views(copy@) == ast_views(nodes@),
    decreases nodes,
{
    broadcast use {group_ast_views, vstd::std_specs::vec::axiom_vec_index_decreases};

    let mut copy: Vec<Ast> = Vec::new();
    let mut i: usize = 0;
    while i < nodes.len()
        invariant
            i <= nodes@.len(),
            ast_views(copy@) == ast_views(nodes@.take(i as int)),
        decreases nodes@.len() - i,
    {
        proof {
            assert(decreases_to!(*nodes => nodes[i as int]));
        }
        let node = nodes[i].duplicate();
        proof {
            assert(nodes@.take(i + 1) =~= nodes@.take(i as int).push(nodes@[i as int]));
            assert(ast_views(nodes@.take(i + 1)) == ast_views(nodes@.take(i as int)).push(node@));
        }
        copy.push(node);
        i += 1;
    }
    proof {
        assert(nodes@.take(nodes@.len() as int) =~= nodes@);
    }
    copy
}

/// A copy of a run of named nodes.
#[verifier::loop_isolation(false)]
pub fn copy_members(members: &Vec<(String, Ast)>) -> (copy: Vec<(String, Ast)>)
    ensures
        member_views(copy@) == member_views(members@),
    decreases members,
{
    broadcast use {group_ast_views, vstd::std_specs::vec::axiom_vec_index_decreases};

    let mut copy: Vec<(String, Ast)> = Vec::new();
    let mut i: usize = 0;
    while i < members.len()
        invariant
            i <= members@.len(),
            member_views(copy@) == member_views(members@.take(i as int)),
        decreases members@.len() - i,
    {
        proof {
            assert(decreases_to!(*members => members[i as int]));
            assert(decreases_to!(members[i as int] => members[i as int].1));
        }
        let member = (members[i].0.clone(), members[i].1.duplicate());
        proof {
            assert(members@.take(i + 1) =~= members@.take(i as int).push(members@[i as int]));
            assert(member_views(members@.take(i + 1)) == member_views(
                members@.take(i as int),
            ).push((member.0@, member.1@)));
        }
        copy.push(member);
        i += 1;
    }
    proof {
        assert(members@.take(members@.len() as int) =~= members@);
    }
    copy
}

impl Ast {
    /// A copy of the tree.
    pub fn duplicate(&self) -> (copy: Ast)
        ensures
            copy@ == self@,
        decreases self,
    {
        broadcast use group_ast_views;

        match self {
            Ast::Literal(l) => Ast::Literal(Literal { content: l.content.clone() }),
            Ast::Array(a) => Ast::Array(Array { content: copy_asts(&a.content) }),
            Ast::Var(name, init) => match init {
                Some(e) => Ast::Var(name.clone(), Some(Box::new((**e).duplicate()))),
                None => Ast::Var(name.clone(), None),
            },
            Ast::Binary(l, op, r) => Ast::Binary(
                Box::new((**l).duplicate()),
                *op,
                Box::new((**r).duplicate()),
            ),
            Ast::Func(name, params, body) => Ast::Func(
                name.clone(),
                copy_names(params),
                copy_asts(body),
            ),
            Ast::Return(e) => Ast::Return(Box::new((**e).duplicate())),
            Ast::For(id, range, body) => Ast::For(id.clone(), copy_asts(range), copy_asts(body)),
            Ast::While(c, body) => Ast::While(Box::new((**c).duplicate()), copy_asts(body)),
            Ast::Conditional(c, body, rest) => Ast::Conditional(
                Box::new((**c).duplicate()),
                copy_asts(body),
                copy_asts(rest),
            ),
            Ast::SetField(var, field, e) => Ast::SetField(
                var.clone(),
                field.clone(),
                Box::new((**e).duplicate()),
            ),
            Ast::Struct(name, fields) => Ast::Struct(name.clone(), copy_names(fields)),
            Ast::Instance(name, members) => Ast::Instance(name.clone(), copy_members(members)),
            Ast::Call(callee, args) => Ast::Call(
                Box::new((**callee).duplicate()),
                copy_asts(args),
            ),
            Ast::Get(target, key, is_expr) => Ast::Get(
                Box::new((**target).duplicate()),
                Box::new((**key).duplicate()),
                *is_expr,
            ),
            Ast::PointGet(target, field) => Ast::PointGet(
                Box::new((**target).duplicate()),
                field.clone(),
            ),
            Ast::Unary(op, e) => Ast::Unary(*op, Box::new((**e).duplicate())),
            Ast::Nothing => Ast::Nothing,
        }
    }
}

impl Clone for Ast {
    fn clone(&self) -> (copy: Self)
        ensures
            copy@ == self@,
    {
        self.duplicate()
    }
}

} // verus!
