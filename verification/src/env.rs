//! Runtime values and the environment: an arena of lexical scopes.

use crate::ast::Block;
use crate::ast::StatementView;
use crate::ast::statements_clone;
use crate::ast::statements_eq;
use crate::ast::statements_view;
use crate::ast::names_clone;
use crate::ast::names_eq;
use crate::stdlib::Builtin;
use crate::text::debug_text;
use crate::text::enclosed;
use crate::text::decimal;
use crate::text::integer_to_string;
use crate::text::str_debug;
use crate::text::strings_view;
use vstd::prelude::*;
use vstd::std_specs::cmp::PartialEqSpecImpl;

verus! {

/// A runtime value.
#[derive(Debug)]
pub enum Object {
    Integer(i64),
    String(String),
    Boolean(bool),
    /// A function: its parameters, its body, and the scope in which it was
    /// declared.
    Function(Vec<String>, Block, usize),
    Builtin(Builtin),
    /// An open file, by its handle.
    File(usize),
    Null,
    /// The value of a `return` on its way out of a function.
    ReturnValue(Box<Object>),
    /// An error on its way out of the program.
    Error(String),
}

/// The mathematical value of an `Object`.
pub enum ObjectView {
    Integer(i64),
    String(Seq<char>),
    Boolean(bool),
    Function { params: Seq<Seq<char>>, body: Seq<StatementView>, scope: nat },
    Builtin(Builtin),
    File(nat),
    Null,
    ReturnValue(Box<ObjectView>),
    Error(Seq<char>),
}

/// The value of an object.
pub open spec fn object_view(object: Object) -> ObjectView
    decreases object,
{
    match object {
        Object::Integer(value) => ObjectView::Integer(value),
        Object::String(value) => ObjectView::String(value@),
        Object::Boolean(value) => ObjectView::Boolean(value),
        Object::Function(params, body, scope) => ObjectView::Function {
            params: strings_view(params@),
            body: statements_view(body@),
            scope: scope as nat,
        },
        Object::Builtin(builtin) => ObjectView::Builtin(builtin),
        Object::File(handle) => ObjectView::File(handle as nat),
        Object::Null => ObjectView::Null,
        Object::ReturnValue(inner) => ObjectView::ReturnValue(Box::new(object_view(*inner))),
        Object::Error(message) => ObjectView::Error(message@),
    }
}

impl View for Object {
    type V = ObjectView;

    open spec fn view(&self) -> ObjectView {
        object_view(*self)
    }
}

/// The values of a sequence of objects.
pub open spec fn objects_view(objects: Seq<Object>) -> Seq<ObjectView> {
    Seq::new(objects.len(), |i: int| objects[i]@)
}

/// Appending an object appends its value.
pub proof fn lemma_objects_push(objects: Seq<Object>, last: Object)
    ensures
        objects_view(objects.push(last)) == objects_view(objects).push(last@),
{
    assert(objects_view(objects.push(last)) =~= objects_view(objects).push(last@));
}

/// Equality of values as the language sees it: integers, strings, booleans,
/// `Null` and errors by value; functions by parameters and body, whatever
/// scope they were declared in; builtins and files equal to nothing, not
/// even to themselves.
pub open spec fn same_value(a: ObjectView, b: ObjectView) -> bool
    decreases a,
{
    match (a, b) {
        (ObjectView::Integer(x), ObjectView::Integer(y)) => x == y,
        (ObjectView::String(x), ObjectView::String(y)) => x == y,
        (ObjectView::Boolean(x), ObjectView::Boolean(y)) => x == y,
        (
            ObjectView::Function { params: params_a, body: body_a, scope: _ },
            ObjectView::Function { params: params_b, body: body_b, scope: _ },
        ) => params_a == params_b && body_a == body_b,
        (ObjectView::Null, ObjectView::Null) => true,
        (ObjectView::ReturnValue(x), ObjectView::ReturnValue(y)) => same_value(*x, *y),
        (ObjectView::Error(x), ObjectView::Error(y)) => x == y,
        _ => false,
    }
}

/// Whether two objects are equal as the language sees it.
pub fn object_eq(a: &Object, b: &Object) -> (r: bool)
    ensures
        r == same_value(a@, b@),
    decreases a,
{
    match (a, b) {
        (Object::Integer(x), Object::Integer(y)) => *x == *y,
        (Object::String(x), Object::String(y)) => *x == *y,
        (Object::Boolean(x), Object::Boolean(y)) => *x == *y,
        (Object::Function(params_a, body_a, _), Object::Function(params_b, body_b, _)) => {
            names_eq(params_a, params_b) && statements_eq(body_a, body_b)
        },
        (Object::Null, Object::Null) => true,
        (Object::ReturnValue(x), Object::ReturnValue(y)) => object_eq(x, y),
        (Object::Error(x), Object::Error(y)) => *x == *y,
        _ => false,
    }
}

/// A copy of an object.
pub fn object_clone(a: &Object) -> (r: Object)
    ensures
        r@ == a@,
    decreases a,
{
    match a {
        Object::Integer(value) => Object::Integer(*value),
        Object::String(value) => Object::String(value.clone()),
        Object::Boolean(value) => Object::Boolean(*value),
        Object::Function(params, body, scope) => Object::Function(
            names_clone(params),
            statements_clone(body),
            *scope,
        ),
        Object::Builtin(builtin) => Object::Builtin(*builtin),
        Object::File(handle) => Object::File(*handle),
        Object::Null => Object::Null,
        Object::ReturnValue(inner) => Object::ReturnValue(Box::new(object_clone(inner))),
        Object::Error(message) => Object::Error(message.clone()),
    }
}

impl PartialEq for Object {
    fn eq(&self, other: &Object) -> (r: bool) {
        object_eq(self, other)
    }
}

impl PartialEqSpecImpl for Object {
    open spec fn obeys_eq_spec() -> bool {
        true
    }

    open spec fn eq_spec(&self, other: &Object) -> bool {
        same_value(self@, other@)
    }
}

impl Clone for Object {
    fn clone(&self) -> (r: Object)
        ensures
            r@ == self@,
    {
        object_clone(self)
    }
}

/// The strings of `parts` with `", "` between them.
pub open spec fn comma_separated(parts: Seq<Seq<char>>) -> Seq<char>
    decreases parts.len(),
{
    if parts.len() == 0 {
        Seq::empty()
    } else if parts.len() == 1 {
        parts[0]
    } else {
        comma_separated(parts.drop_last()) + ", "@ + parts.last()
    }
}

/// The text that shows a value to the user.
pub open spec fn inspect_text(object: ObjectView) -> Seq<char>
    decreases object,
{
    match object {
        ObjectView::Integer(value) => decimal(value as int),
        ObjectView::String(value) => value,
        ObjectView::Boolean(value) => if value {
            "true"@
        } else {
            "false"@
        },
        ObjectView::Function { params, body, scope } => "fn("@ + comma_separated(params)
            + ") { ... }"@,
        ObjectView::Builtin(_) => "builtin function"@,
        ObjectView::File(_) => "file"@,
        ObjectView::Null => "null"@,
        ObjectView::ReturnValue(inner) => inspect_text(*inner),
        ObjectView::Error(message) => "ERROR: "@ + message,
    }
}

/// The strings of `parts[..]`, each quoted and escaped, with `", "` between
/// them.
pub open spec fn quoted_list(parts: Seq<Seq<char>>) -> Seq<char>
    decreases parts.len(),
{
    if parts.len() == 0 {
        Seq::empty()
    } else if parts.len() == 1 {
        debug_text(parts[0])
    } else {
        quoted_list(parts.drop_last()) + ", "@ + debug_text(parts.last())
    }
}

/// The text that names a value in error messages: the kind of value, with
/// its content in parentheses; strings quoted and escaped. A function is
/// named by its parameters, a builtin by its name.
pub open spec fn object_debug(object: ObjectView) -> Seq<char>
    decreases object,
{
    match object {
        ObjectView::Integer(value) => "Integer("@ + decimal(value as int) + ")"@,
        ObjectView::String(value) => "String("@ + debug_text(value) + ")"@,
        ObjectView::Boolean(value) => if value {
            "Boolean(true)"@
        } else {
            "Boolean(false)"@
        },
        ObjectView::Function { params, body, scope } => "Function(["@ + quoted_list(params)
            + "])"@,
        ObjectView::Builtin(builtin) => "Builtin("@ + builtin.name() + ")"@,
        ObjectView::File(_) => "File"@,
        ObjectView::Null => "Null"@,
        ObjectView::ReturnValue(inner) => "ReturnValue("@ + object_debug(*inner) + ")"@,
        ObjectView::Error(message) => "Error("@ + debug_text(message) + ")"@,
    }
}

/// The names of `params` with `", "` between them.
fn join_names(params: &Vec<String>) -> (r: String)
    ensures
        r@ == comma_separated(strings_view(params@)),
{
    let mut r = String::new();
    let mut i: usize = 0;
    while i < params.len()
        invariant
            i <= params.len(),
            r@ == comma_separated(strings_view(params@).take(i as int)),
        decreases params.len() - i,
    {
        if i > 0 {
            r.append(", ");
        }
        r.append(params[i].as_str());
        proof {
            let all = strings_view(params@);
            assert(all.take(i + 1).drop_last() =~= all.take(i as int));
            assert(all.take(i + 1).last() == params@[i as int]@);
            if i == 0 {
                assert(Seq::<char>::empty() + params@[i as int]@ =~= params@[i as int]@);
            }
        }
        i += 1;
    }
    assert(strings_view(params@).take(params.len() as int) =~= strings_view(params@));
    r
}

/// The names of `params`, each quoted and escaped, with `", "` between them.
fn join_quoted(params: &Vec<String>) -> (r: String)
    ensures
        r@ == quoted_list(strings_view(params@)),
{
    let mut r = String::new();
    let mut i: usize = 0;
    while i < params.len()
        invariant
            i <= params.len(),
            r@ == quoted_list(strings_view(params@).take(i as int)),
        decreases params.len() - i,
    {
        if i > 0 {
            r.append(", ");
        }
        r.append(str_debug(params[i].as_str()).as_str());
        proof {
            let all = strings_view(params@);
            assert(all.take(i + 1).drop_last() =~= all.take(i as int));
            assert(all.take(i + 1).last() == params@[i as int]@);
            if i == 0 {
                assert(Seq::<char>::empty() + debug_text(params@[i as int]@) =~= debug_text(
                    params@[i as int]@,
                ));
            }
        }
        i += 1;
    }
    assert(strings_view(params@).take(params.len() as int) =~= strings_view(params@));
    r
}

impl Object {
    /// The text that shows this value to the user.
    pub fn inspect(&self) -> (r: String)
        ensures
            r@ == inspect_text(self@),
        decreases self,
    {
        match self {
            Object::Integer(value) => integer_to_string(*value),
            Object::String(value) => value.clone(),
            Object::Boolean(value) => if *value {
                String::from_str("true")
            } else {
                String::from_str("false")
            },
            Object::Function(params, _, _) => enclosed(
                "fn(",
                join_names(params).as_str(),
                ") { ... }",
            ),
            Object::Builtin(_) => String::from_str("builtin function"),
            Object::File(_) => String::from_str("file"),
            Object::Null => String::from_str("null"),
            Object::ReturnValue(inner) => inner.inspect(),
            Object::Error(message) => {
                let mut r = String::from_str("ERROR: ");
                r.append(message.as_str());
                r
            },
        }
    }

    /// The text that names this value in error messages.
    pub fn debug_string(&self) -> (r: String)
        ensures
            r@ == object_debug(self@),
        decreases self,
    {
        match self {
            Object::Integer(value) => enclosed(
                "Integer(",
                integer_to_string(*value).as_str(),
                ")",
            ),
            Object::String(value) => enclosed("String(", str_debug(value.as_str()).as_str(), ")"),
            Object::Boolean(value) => if *value {
                String::from_str("Boolean(true)")
            } else {
                String::from_str("Boolean(false)")
            },
            Object::Function(params, _, _) => enclosed(
                "Function([",
                join_quoted(params).as_str(),
                "])",
            ),
            Object::Builtin(builtin) => enclosed("Builtin(", builtin.name_string().as_str(), ")"),
            Object::File(_) => String::from_str("File"),
            Object::Null => String::from_str("Null"),
            Object::ReturnValue(inner) => enclosed(
                "ReturnValue(",
                inner.debug_string().as_str(),
                ")",
            ),
            Object::Error(message) => enclosed("Error(", str_debug(message.as_str()).as_str(), ")"),
        }
    }
}

// ---------------------------------------------------------------------------
// Scopes
// ---------------------------------------------------------------------------

/// The mathematical value of a scope: its bindings, the scope that encloses
/// it, if any, and whether a function has been declared in it.
pub struct ScopeView {
    pub store: Map<Seq<char>, ObjectView>,
    pub outer: Option<nat>,
    pub captured: bool,
}

/// The value bound to `name` as seen from `scope`: the binding of the
/// nearest scope, going outwards, that has one.
pub open spec fn lookup(scopes: Seq<ScopeView>, scope: nat, name: Seq<char>) -> Option<ObjectView>
    decreases scope,
{
    if scope >= scopes.len() {
        None
    } else if scopes[scope as int].store.contains_key(name) {
        Some(scopes[scope as int].store[name])
    } else {
        match scopes[scope as int].outer {
            Some(outer) => if outer < scope {
                lookup(scopes, outer, name)
            } else {
                None
            },
            None => None,
        }
    }
}

/// The scopes after `name` is bound to `value` in `scope`: only that scope's
/// own bindings change, whatever the enclosing scopes hold.
pub open spec fn bind(scopes: Seq<ScopeView>, scope: nat, name: Seq<char>, value: ObjectView) -> Seq<
    ScopeView,
> {
    if scope < scopes.len() {
        scopes.update(
            scope as int,
            ScopeView {
                store: scopes[scope as int].store.insert(name, value),
                outer: scopes[scope as int].outer,
                captured: scopes[scope as int].captured,
            },
        )
    } else {
        scopes
    }
}

/// The scopes after a new, empty scope is opened inside `outer`. The new
/// scope is the last one.
pub open spec fn enclose(scopes: Seq<ScopeView>, outer: nat) -> Seq<ScopeView> {
    scopes.push(ScopeView { store: Map::empty(), outer: Some(outer), captured: false })
}

/// The scopes after a function is declared in `scope`: the scope is marked,
/// so that it outlives the call that opened it.
pub open spec fn capture(scopes: Seq<ScopeView>, scope: nat) -> Seq<ScopeView> {
    if scope < scopes.len() {
        scopes.update(
            scope as int,
            ScopeView {
                store: scopes[scope as int].store,
                outer: scopes[scope as int].outer,
                captured: true,
            },
        )
    } else {
        scopes
    }
}

/// The scopes after the call that opened `scope` has returned: the scope is
/// discarded where nothing can refer to it any more, that is, where it is
/// the last scope and no function was declared in it. The global scope is
/// never discarded.
pub open spec fn release(scopes: Seq<ScopeView>, scope: nat) -> Seq<ScopeView> {
    if 1 <= scope && scopes.len() == scope + 1 && !scopes[scope as int].captured {
        scopes.drop_last()
    } else {
        scopes
    }
}

/// Every scope but the first is enclosed by an earlier one.
pub open spec fn chained(scopes: Seq<ScopeView>) -> bool {
    forall|i: int|
        0 <= i < scopes.len() ==> match (#[trigger] scopes[i]).outer {
            Some(outer) => outer < i,
            None => true,
        }
}

/// What a name is bound to as seen from a scope depends only on that scope
/// and on the scopes before it.
pub proof fn lemma_lookup_ignores_later_scopes(
    before: Seq<ScopeView>,
    after: Seq<ScopeView>,
    scope: nat,
    name: Seq<char>,
)
    requires
        chained(before),
        scope < before.len() <= after.len(),
        forall|i: int| 0 <= i <= scope ==> before[i] == after[i],
    ensures
        lookup(before, scope, name) == lookup(after, scope, name),
    decreases scope,
{
    if !before[scope as int].store.contains_key(name) {
        match before[scope as int].outer {
            Some(outer) => {
                lemma_lookup_ignores_later_scopes(before, after, outer, name);
            },
            None => {},
        }
    }
}

/// A binding is seen from the scope in which it was made.
pub proof fn lemma_bound_is_found(
    scopes: Seq<ScopeView>,
    scope: nat,
    name: Seq<char>,
    value: ObjectView,
)
    requires
        scope < scopes.len(),
    ensures
        lookup(bind(scopes, scope, name, value), scope, name) == Some(value),
{
}

/// Shadowing: a binding made in a scope changes nothing of what is seen
/// from the scopes before it, the enclosing scopes among them.
pub proof fn lemma_bind_leaves_outer_scopes(
    scopes: Seq<ScopeView>,
    scope: nat,
    name: Seq<char>,
    value: ObjectView,
    outer: nat,
    other: Seq<char>,
)
    requires
        chained(scopes),
        outer < scope,
        outer < scopes.len(),
    ensures
        lookup(bind(scopes, scope, name, value), outer, other) == lookup(scopes, outer, other),
{
    lemma_lookup_ignores_later_scopes(scopes, bind(scopes, scope, name, value), outer, other);
}

/// The bindings that two parallel lists of names and values stand for.
pub open spec fn store_view(names: Seq<String>, values: Seq<Object>) -> Map<
    Seq<char>,
    ObjectView,
>
    decreases names.len(),
{
    if names.len() == 0 || values.len() != names.len() {
        Map::empty()
    } else {
        store_view(names.drop_last(), values.drop_last()).insert(names.last()@, values.last()@)
    }
}

/// No two of `names` are the same string.
pub open spec fn distinct(names: Seq<String>) -> bool {
    forall|i: int, j: int| 0 <= i < j < names.len() ==> names[i]@ != names[j]@
}

/// A name is bound exactly when it is one of `names`.
proof fn lemma_store_domain(names: Seq<String>, values: Seq<Object>, name: Seq<char>)
    requires
        names.len() == values.len(),
    ensures
        store_view(names, values).contains_key(name) <==> exists|i: int|
            0 <= i < names.len() && names[i]@ == name,
    decreases names.len(),
{
    if names.len() > 0 {
        lemma_store_domain(names.drop_last(), values.drop_last(), name);
        if store_view(names, values).contains_key(name) {
            if names.last()@ == name {
                assert(names[names.len() - 1]@ == name);
            } else {
                let i = choose|i: int|
                    0 <= i < names.drop_last().len() && names.drop_last()[i]@ == name;
                assert(names[i]@ == name);
            }
        }
        if exists|i: int| 0 <= i < names.len() && names[i]@ == name {
            let i = choose|i: int| 0 <= i < names.len() && names[i]@ == name;
            if i < names.len() - 1 {
                assert(names.drop_last()[i]@ == name);
            }
        }
    }
}

/// Each name is bound to the value beside it.
proof fn lemma_store_value(names: Seq<String>, values: Seq<Object>, i: int)
    requires
        names.len() == values.len(),
        distinct(names),
        0 <= i < names.len(),
    ensures
        store_view(names, values).contains_key(names[i]@),
        store_view(names, values)[names[i]@] == values[i]@,
    decreases names.len(),
{
    if i < names.len() - 1 {
        lemma_store_value(names.drop_last(), values.drop_last(), i);
    }
}

/// Replacing the value beside a name rebinds that name.
proof fn lemma_store_update(names: Seq<String>, values: Seq<Object>, i: int, value: Object)
    requires
        names.len() == values.len(),
        distinct(names),
        0 <= i < names.len(),
    ensures
        store_view(names, values.update(i, value)) == store_view(names, values).insert(
            names[i]@,
            value@,
        ),
    decreases names.len(),
{
    let updated = values.update(i, value);
    if i < names.len() - 1 {
        lemma_store_update(names.drop_last(), values.drop_last(), i, value);
        assert(updated.drop_last() =~= values.drop_last().update(i, value));
        assert(store_view(names, updated) =~= store_view(names, values).insert(names[i]@, value@));
    } else {
        assert(updated.drop_last() =~= values.drop_last());
        assert(store_view(names, updated) =~= store_view(names, values).insert(names[i]@, value@));
    }
}

/// One scope: names and the values bound to them, side by side, and the
/// index of the enclosing scope.
pub struct Scope {
    names: Vec<String>,
    values: Vec<Object>,
    outer: Option<usize>,
    captured: bool,
}

impl Scope {
    /// Each name has its value, and no name occurs twice.
    pub closed spec fn wf(&self) -> bool {
        &&& self.names.len() == self.values.len()
        &&& distinct(self.names@)
    }
}

impl View for Scope {
    type V = ScopeView;

    closed spec fn view(&self) -> ScopeView {
        ScopeView {
            store: store_view(self.names@, self.values@),
            outer: match self.outer {
                Some(outer) => Some(outer as nat),
                None => None,
            },
            captured: self.captured,
        }
    }
}

/// The environment: the scopes of a run, the global scope first. A scope is
/// named by its index, which stays the same for as long as the scope lives. Function values hold the index of the scope they were
/// declared in.
pub struct Environment {
    scopes: Vec<Scope>,
}

impl View for Environment {
    type V = Seq<ScopeView>;

    closed spec fn view(&self) -> Seq<ScopeView> {
        Seq::new(self.scopes.len() as nat, |i: int| self.scopes[i]@)
    }
}

/// The value of an optional object.
pub open spec fn object_option(r: Option<Object>) -> Option<ObjectView> {
    match r {
        Some(object) => Some(object@),
        None => None,
    }
}

impl Environment {
    /// There is a global scope, every scope is well formed, and every scope
    /// but the first is enclosed by an earlier one.
    pub closed spec fn wf(&self) -> bool {
        &&& self.scopes.len() >= 1
        &&& forall|i: int| 0 <= i < self.scopes.len() ==> (#[trigger] self.scopes[i]).wf()
        &&& chained(self@)
    }

    /// In a well-formed environment every enclosing scope comes earlier.
    pub proof fn lemma_chained(&self)
        requires
            self.wf(),
        ensures
            self@.len() >= 1,
            chained(self@),
    {
    }

    /// An environment with the global scope alone, and nothing bound.
    pub fn new() -> (env: Environment)
        ensures
            env.wf(),
            env@ == seq![ScopeView { store: Map::empty(), outer: None, captured: false }],
    {
        let mut scopes: Vec<Scope> = Vec::new();
        scopes.push(
            Scope { names: Vec::new(), values: Vec::new(), outer: None, captured: false },
        );
        let env = Environment { scopes };
        assert(env@ =~= seq![ScopeView { store: Map::empty(), outer: None, captured: false }]);
        env
    }

    /// The number of scopes.
    pub fn len(&self) -> (n: usize)
        ensures
            n == self@.len(),
    {
        self.scopes.len()
    }

    /// Opens a new, empty scope inside `outer` and returns its index.
    pub fn new_enclosed(&mut self, outer: usize) -> (scope: usize)
        requires
            old(self).wf(),
            outer < old(self)@.len(),
        ensures
            final(self).wf(),
            final(self)@ == enclose(old(self)@, outer as nat),
            scope == old(self)@.len(),
    {
        let scope = self.scopes.len();
        self.scopes.push(
            Scope { names: Vec::new(), values: Vec::new(), outer: Some(outer), captured: false },
        );
        assert(self@ =~= enclose(old(self)@, outer as nat));
        scope
    }

    /// Marks `scope` as one in which a function has been declared.
    pub fn capture(&mut self, scope: usize)
        requires
            old(self).wf(),
            scope < old(self)@.len(),
        ensures
            final(self).wf(),
            final(self)@ == capture(old(self)@, scope as nat),
    {
        self.scopes[scope].captured = true;
        assert(self@ =~= capture(old(self)@, scope as nat));
    }

    /// Discards `scope` after the call that opened it, where nothing can
    /// refer to it any more.
    pub fn release(&mut self, scope: usize)
        requires
            old(self).wf(),
        ensures
            final(self).wf(),
            final(self)@ == release(old(self)@, scope as nat),
    {
        if 1 <= scope && scope < self.scopes.len() && self.scopes.len() - 1 == scope
            && !self.scopes[scope].captured {
            self.scopes.pop();
            assert(self@ =~= release(old(self)@, scope as nat));
        }
    }

    /// The value bound to `name` as seen from `scope`, if any.
    pub fn get(&self, scope: usize, name: &str) -> (r: Option<Object>)
        requires
            self.wf(),
        ensures
            object_option(r) == lookup(self@, scope as nat, name@),
    {
        let key = String::from_str(name);
        let mut current = scope;
        loop
            invariant
                self.wf(),
                key@ == name@,
                lookup(self@, scope as nat, name@) == lookup(self@, current as nat, name@),
            decreases current,
        {
            if current >= self.scopes.len() {
                return None;
            }
            let here = &self.scopes[current];
            let mut i: usize = 0;
            while i < here.names.len()
                invariant
                    self.wf(),
                    key@ == name@,
                    lookup(self@, scope as nat, name@) == lookup(self@, current as nat, name@),
                    here == &self.scopes[current as int],
                    current < self.scopes.len(),
                    i <= here.names.len(),
                    forall|k: int| 0 <= k < i ==> here.names@[k]@ != key@,
                decreases here.names.len() - i,
            {
                if here.names[i] == key {
                    proof {
                        lemma_store_value(here.names@, here.values@, i as int);
                        assert(self@[current as int] == here@);
                    }
                    return Some(object_clone(&here.values[i]));
                }
                i += 1;
            }
            proof {
                lemma_store_domain(here.names@, here.values@, key@);
                assert(self@[current as int] == here@);
            }
            match here.outer {
                Some(outer) => {
                    current = outer;
                },
                None => {
                    return None;
                },
            }
        }
    }

    /// Binds `name` to `val` in `scope` itself, whether or not an enclosing
    /// scope binds the name, and returns the value.
    pub fn set(&mut self, scope: usize, name: String, val: Object) -> (r: Object)
        requires
            old(self).wf(),
            scope < old(self)@.len(),
        ensures
            final(self).wf(),
            final(self)@ == bind(old(self)@, scope as nat, name@, val@),
            r@ == val@,
    {
        self.insert(scope, name, object_clone(&val));
        val
    }

    /// Binds `name` to `val` in `scope` itself.
    pub fn insert(&mut self, scope: usize, name: String, val: Object)
        requires
            old(self).wf(),
            scope < old(self)@.len(),
        ensures
            final(self).wf(),
            final(self)@ == bind(old(self)@, scope as nat, name@, val@),
    {
        let mut i: usize = 0;
        let mut found: Option<usize> = None;
        while i < self.scopes[scope].names.len()
            invariant_except_break
                found is None,
                i <= self.scopes[scope as int].names.len(),
                forall|k: int| 0 <= k < i ==> self.scopes[scope as int].names@[k]@ != name@,
            invariant
                self.scopes == old(self).scopes,
                scope < self.scopes.len(),
                self.wf(),
            ensures
                scope < self.scopes.len(),
                self.scopes == old(self).scopes,
                match found {
                    Some(k) => k < self.scopes[scope as int].names.len()
                        && self.scopes[scope as int].names@[k as int]@ == name@,
                    None => forall|k: int|
                        0 <= k < self.scopes[scope as int].names.len()
                            ==> self.scopes[scope as int].names@[k]@ != name@,
                },
            decreases self.scopes[scope as int].names.len() - i,
        {
            if self.scopes[scope].names[i] == name {
                found = Some(i);
                break ;
            }
            i += 1;
        }
        let ghost before = self.scopes[scope as int];
        let ghost value = val@;
        match found {
            Some(k) => {
                proof {
                    lemma_store_update(before.names@, before.values@, k as int, val);
                }
                self.scopes[scope].values[k] = val;
            },
            None => {
                self.scopes[scope].names.push(name);
                self.scopes[scope].values.push(val);
                proof {
                    let after = self.scopes[scope as int];
                    assert(after.names@.drop_last() =~= before.names@);
                    assert(after.values@.drop_last() =~= before.values@);
                }
            },
        }
        assert(self@ =~= bind(old(self)@, scope as nat, name@, value));
    }
}

} // verus!
