//! Binding metadata: a module's named definitions merged by name (partial
//! interfaces and dictionaries folded into their one non-partial
//! definition) and listed in name order, followed by its `includes`
//! relations in order, after every definition, relation and merge is checked.
use crate::order::{
    bytes_order, compare_bytes, flip, lemma_bytes_order_equal, lemma_bytes_order_flip,
    lemma_bytes_order_trans, then_order, Order,
};
use crate::text::{lemma_encode_injective, push_str, str_eq};
use crate::webidl::{
    Definition, DictionaryMember, InterfaceMember, WebIdlError, WebIdlErrorKind, WebIdlModule,
    module_text, push_definitions,
};
use crate::keyed::{less_is_transitive, lemma_sorted_insert, sorted_by};
use vstd::prelude::*;
use vstd::utf8::encode_utf8;

verus! {

/// What a named definition is.
#[derive(Clone, Copy, Debug, PartialEq, Eq, Structural)]
pub enum NamedKind {
    Interface,
    Mixin,
    Dictionary,
    Enum,
    Typedef,
}

/// Whether a definition has a name (every one but an `includes` relation).
pub open spec fn named(d: Definition) -> bool {
    !(d is Includes)
}

/// The name of a named definition; the target of an `includes` relation.
pub open spec fn name_of(d: Definition) -> Seq<char> {
    match d {
        Definition::Interface(x) => x.name@,
        Definition::Dictionary(x) => x.name@,
        Definition::Enum(x) => x.name@,
        Definition::Typedef(x) => x.name@,
        Definition::Includes(x) => x.target@,
    }
}

pub open spec fn kind_of(d: Definition) -> NamedKind {
    match d {
        Definition::Interface(x) => if x.mixin {
            NamedKind::Mixin
        } else {
            NamedKind::Interface
        },
        Definition::Dictionary(_) => NamedKind::Dictionary,
        Definition::Enum(_) => NamedKind::Enum,
        Definition::Typedef(_) => NamedKind::Typedef,
        Definition::Includes(_) => NamedKind::Interface,
    }
}

pub open spec fn partial_of(d: Definition) -> bool {
    match d {
        Definition::Interface(x) => x.partial,
        Definition::Dictionary(x) => x.partial,
        _ => false,
    }
}

pub open spec fn inherits_of(d: Definition) -> bool {
    match d {
        Definition::Interface(x) => x.inherits is Some,
        Definition::Dictionary(x) => x.inherits is Some,
        _ => false,
    }
}

/// Kinds whose definitions may be split into partial parts.
pub open spec fn mergeable(k: NamedKind) -> bool {
    k is Interface || k is Mixin || k is Dictionary
}

/// The target and mixin of an `includes` relation.
pub open spec fn pair_of(d: Definition) -> (Seq<char>, Seq<char>) {
    match d {
        Definition::Includes(x) => (x.target@, x.mixin@),
        _ => (Seq::empty(), Seq::empty()),
    }
}

/// The definition at `j` comes before the one at `i` and has its name.
pub open spec fn same_name_before(ds: Seq<Definition>, i: int, j: int) -> bool {
    0 <= j < i && named(ds[j]) && name_of(ds[j]) == name_of(ds[i])
}

/// What is wrong with the definition at `i` given the ones before it: a
/// repeated `includes` relation; a name already used by another kind, or by
/// an enum or typedef; a partial definition or an interface mixin that
/// declares inheritance; a second non-partial definition of a name.
pub open spec fn problem_at(ds: Seq<Definition>, i: int) -> bool {
    let d = ds[i];
    if !named(d) {
        exists|j: int| 0 <= j < i && !named(#[trigger] ds[j]) && pair_of(ds[j]) == pair_of(d)
    } else {
        ||| exists|j: int|
            #[trigger] same_name_before(ds, i, j) && (kind_of(ds[j]) != kind_of(d) || !mergeable(
                kind_of(d),
            ))
        ||| partial_of(d) && inherits_of(d)
        ||| kind_of(d) == NamedKind::Mixin && !partial_of(d) && inherits_of(d)
        ||| !partial_of(d) && exists|j: int| #[trigger] same_name_before(ds, i, j) && !partial_of(ds[j])
    }
}

/// Some named definition has the name and kind.
pub open spec fn defines(ds: Seq<Definition>, name: Seq<char>, kind: NamedKind) -> bool {
    exists|j: int| 0 <= j < ds.len() && named(#[trigger] ds[j]) && name_of(ds[j]) == name && kind_of(ds[j]) == kind
}

/// Some non-partial definition has the name.
pub open spec fn has_base(ds: Seq<Definition>, name: Seq<char>) -> bool {
    exists|j: int| 0 <= j < ds.len() && named(#[trigger] ds[j]) && name_of(ds[j]) == name && !partial_of(ds[j])
}

/// A module binds: no definition has a problem, every `includes` relation
/// joins an interface to an interface mixin, and every interface or
/// dictionary name has a non-partial definition.
pub open spec fn binds(ds: Seq<Definition>) -> bool {
    &&& forall|i: int| 0 <= i < ds.len() ==> !#[trigger] problem_at(ds, i)
    &&& forall|i: int|
        0 <= i < ds.len() && !named(#[trigger] ds[i]) ==> defines(ds, pair_of(ds[i]).0, NamedKind::Interface)
            && defines(ds, pair_of(ds[i]).1, NamedKind::Mixin)
    &&& forall|i: int|
        0 <= i < ds.len() && named(#[trigger] ds[i]) && mergeable(kind_of(ds[i])) ==> has_base(
            ds,
            name_of(ds[i]),
        )
}


fn is_named(d: &Definition) -> (r: bool)
    ensures
        r == named(*d),
{
    match d {
        Definition::Includes(_) => false,
        _ => true,
    }
}

fn def_name(d: &Definition) -> (r: &str)
    ensures
        r@ == name_of(*d),
{
    match d {
        Definition::Interface(x) => x.name.as_str(),
        Definition::Dictionary(x) => x.name.as_str(),
        Definition::Enum(x) => x.name.as_str(),
        Definition::Typedef(x) => x.name.as_str(),
        Definition::Includes(x) => x.target.as_str(),
    }
}

fn def_kind(d: &Definition) -> (r: NamedKind)
    ensures
        r == kind_of(*d),
{
    match d {
        Definition::Interface(x) => if x.mixin {
            NamedKind::Mixin
        } else {
            NamedKind::Interface
        },
        Definition::Dictionary(_) => NamedKind::Dictionary,
        Definition::Enum(_) => NamedKind::Enum,
        Definition::Typedef(_) => NamedKind::Typedef,
        Definition::Includes(_) => NamedKind::Interface,
    }
}

fn def_partial(d: &Definition) -> (r: bool)
    ensures
        r == partial_of(*d),
{
    match d {
        Definition::Interface(x) => x.partial,
        Definition::Dictionary(x) => x.partial,
        _ => false,
    }
}

fn def_inherits(d: &Definition) -> (r: bool)
    ensures
        r == inherits_of(*d),
{
    match d {
        Definition::Interface(x) => x.inherits.is_some(),
        Definition::Dictionary(x) => x.inherits.is_some(),
        _ => false,
    }
}

fn is_mergeable(k: NamedKind) -> (r: bool)
    ensures
        r == mergeable(k),
{
    match k {
        NamedKind::Interface | NamedKind::Mixin | NamedKind::Dictionary => true,
        _ => false,
    }
}

/// The word that names a kind of definition in messages.
pub open spec fn kind_label_text(k: NamedKind) -> Seq<char> {
    match k {
        NamedKind::Interface => "interface"@,
        NamedKind::Mixin => "interface mixin"@,
        NamedKind::Dictionary => "dictionary"@,
        NamedKind::Enum => "enum"@,
        NamedKind::Typedef => "typedef"@,
    }
}

fn kind_label(k: NamedKind) -> (r: &'static str)
    ensures
        r@ == kind_label_text(k),
{
    match k {
        NamedKind::Interface => "interface",
        NamedKind::Mixin => "interface mixin",
        NamedKind::Dictionary => "dictionary",
        NamedKind::Enum => "enum",
        NamedKind::Typedef => "typedef",
    }
}

fn pair_parts(d: &Definition) -> (r: (&str, &str))
    ensures
        (r.0@, r.1@) == pair_of(*d),
{
    match d {
        Definition::Includes(x) => (x.target.as_str(), x.mixin.as_str()),
        _ => {
            proof {
                reveal_strlit("");
            }
            ("", "")
        },
    }
}

fn validation(message: String) -> (r: WebIdlError)
    ensures
        r.kind == WebIdlErrorKind::Validation,
        r.message == message,
{
    WebIdlError::with_message(WebIdlErrorKind::Validation, message)
}

fn message3(a: &str, b: &str, c: &str) -> (r: String)
    ensures
        r@ == a@ + b@ + c@,
{
    let mut m = String::new();
    push_str(&mut m, a);
    push_str(&mut m, b);
    push_str(&mut m, c);
    proof {
        assert(Seq::<char>::empty() + a@ + b@ + c@ =~= a@ + b@ + c@);
    }
    m
}

/// Checks the definition at `i` against the ones before it.
/// The first definition before `i` with its name.
pub open spec fn first_same_name(ds: Seq<Definition>, i: int) -> int {
    choose|k: int| same_name_before(ds, i, k) && forall|k2: int| 0 <= k2 < k ==> !#[trigger] same_name_before(ds, i, k2)
}

/// The first named definition with the name.
pub open spec fn first_named(ds: Seq<Definition>, name: Seq<char>) -> int {
    choose|k: int|
        0 <= k < ds.len() && named(ds[k]) && name_of(ds[k]) == name && forall|k2: int|
            0 <= k2 < k ==> !(named(#[trigger] ds[k2]) && name_of(ds[k2]) == name)
}

/// The message that reports the problem of the definition at `i`.
pub open spec fn problem_message(ds: Seq<Definition>, i: int) -> Seq<char> {
    let d = ds[i];
    if !named(d) {
        "duplicate WebIDL includes relation: "@ + pair_of(d).0 + " includes "@ + pair_of(d).1
    } else if exists|j: int|
        #[trigger] same_name_before(ds, i, j) && (kind_of(ds[j]) != kind_of(d) || !mergeable(kind_of(d))) {
        "conflicting WebIDL definitions for "@ + name_of(d) + ": "@ + kind_label_text(
            kind_of(ds[first_same_name(ds, i)]),
        ) + " and "@ + kind_label_text(kind_of(d))
    } else if partial_of(d) && inherits_of(d) {
        (if kind_of(d) == NamedKind::Dictionary {
            "partial WebIDL dictionary "@
        } else {
            "partial WebIDL interface "@
        }) + name_of(d) + " must not declare inheritance"@
    } else if kind_of(d) == NamedKind::Mixin && inherits_of(d) {
        "WebIDL interface mixin "@ + name_of(d) + " must not declare inheritance"@
    } else {
        "duplicate non-partial WebIDL "@ + kind_label_text(kind_of(d)) + " definition: "@ + name_of(d)
    }
}

/// The message that reports an `includes` side `name` that is not a
/// definition of the wanted kind.
pub open spec fn side_message(ds: Seq<Definition>, name: Seq<char>, role: Seq<char>, wanted: Seq<char>) -> Seq<char> {
    if exists|j: int| 0 <= j < ds.len() && named(#[trigger] ds[j]) && name_of(ds[j]) == name {
        "WebIDL includes "@ + role + " "@ + name + " is "@ + kind_label_text(kind_of(ds[first_named(ds, name)]))
            + ", not an "@ + wanted
    } else {
        "WebIDL includes "@ + role + " "@ + name + " has no "@ + wanted + " definition"@
    }
}

/// The message that reports a partial definition without a non-partial one.
pub open spec fn incomplete_message(kind: NamedKind, name: Seq<char>) -> Seq<char> {
    "partial WebIDL "@ + kind_label_text(kind) + " "@ + name + " has no non-partial definition"@
}

fn check_at(ds: &Vec<Definition>, i: usize) -> (r: Result<(), WebIdlError>)
    requires
        i < ds@.len(),
    ensures
        r is Ok <==> !problem_at(ds@, i as int),
        r matches Err(e) ==> e.kind == WebIdlErrorKind::Validation && e.message@ == problem_message(
            ds@,
            i as int,
        ),
{
    let d = &ds[i];
    if !is_named(d) {
        let (target, mixin) = pair_parts(d);
        let mut j: usize = 0;
        while j < i
            invariant
                j <= i < ds@.len(),
                *d == ds@[i as int],
                !named(*d),
                (target@, mixin@) == pair_of(*d),
                forall|k: int|
                    0 <= k < j ==> !(!named(#[trigger] ds@[k]) && pair_of(ds@[k]) == pair_of(*d)),
            decreases i - j,
        {
            let other = &ds[j];
            if !is_named(other) {
                let (t2, m2) = pair_parts(other);
                if str_eq(t2, target) && str_eq(m2, mixin) {
                    proof {
                        assert(*other == ds@[j as int]);
                        assert(pair_of(*other) == (t2@, m2@));
                        assert(pair_of(*other) == pair_of(*d));
                        assert(!named(ds@[j as int]) && pair_of(ds@[j as int]) == pair_of(*d));
                        assert(!named(ds@[i as int]));
                        assert(0 <= j < i);
                        assert(exists|k: int|
                            0 <= k < i && !named(#[trigger] ds@[k]) && pair_of(ds@[k]) == pair_of(
                                ds@[i as int],
                            ));
                        assert(problem_at(ds@, i as int));
                    }
                    let mut m = message3("duplicate WebIDL includes relation: ", target, " includes ");
                    push_str(&mut m, mixin);
                    proof {
                        assert(m@ =~= problem_message(ds@, i as int));
                    }
                    return Err(validation(m));
                }
            }
            j = j + 1;
        }
        return Ok(());
    }
    let name = def_name(d);
    let kind = def_kind(d);
    let mut first: Option<usize> = None;
    let mut conflict = false;
    let mut earlier_base = false;
    let mut j: usize = 0;
    while j < i
        invariant
            j <= i < ds@.len(),
            *d == ds@[i as int],
            named(*d),
            name@ == name_of(*d),
            kind == kind_of(*d),
            conflict ==> exists|k: int|
                #[trigger] same_name_before(ds@, i as int, k) && (kind_of(ds@[k]) != kind || !mergeable(
                    kind,
                )),
            !conflict ==> forall|k: int|
                0 <= k < j ==> !(#[trigger] same_name_before(ds@, i as int, k) && (kind_of(ds@[k])
                    != kind || !mergeable(kind))),
            earlier_base ==> exists|k: int|
                #[trigger] same_name_before(ds@, i as int, k) && !partial_of(ds@[k]),
            !earlier_base ==> forall|k: int|
                0 <= k < j ==> !(#[trigger] same_name_before(ds@, i as int, k) && !partial_of(ds@[k])),
            first matches Some(f) ==> same_name_before(ds@, i as int, f as int) && forall|k2: int|
                0 <= k2 < f ==> !#[trigger] same_name_before(ds@, i as int, k2),
            first is None ==> forall|k2: int| 0 <= k2 < j ==> !#[trigger] same_name_before(ds@, i as int, k2),
            conflict ==> first is Some,
        decreases i - j,
    {
        let other = &ds[j];
        if is_named(other) && str_eq(def_name(other), name) {
            proof {
                assert(same_name_before(ds@, i as int, j as int));
            }
            if first.is_none() {
                first = Some(j);
            }
            proof {
                if first == Some(j) {
                    assert(forall|k2: int| 0 <= k2 < j ==> !#[trigger] same_name_before(ds@, i as int, k2));
                }
            }
            if def_kind(other) != kind || !is_mergeable(kind) {
                conflict = true;
            }
            if !def_partial(other) {
                earlier_base = true;
            }
        }
        j = j + 1;
    }
    if conflict {
        let existing = match first {
            Some(f) => kind_label(def_kind(&ds[f])),
            None => kind_label(kind),
        };
        let mut m = message3("conflicting WebIDL definitions for ", name, ": ");
        push_str(&mut m, existing);
        push_str(&mut m, " and ");
        push_str(&mut m, kind_label(kind));
        proof {
            let f = first->0 as int;
            let c = first_same_name(ds@, i as int);
            assert(same_name_before(ds@, i as int, c) && forall|k2: int|
                0 <= k2 < c ==> !#[trigger] same_name_before(ds@, i as int, k2));
            if c < f {
                assert(same_name_before(ds@, i as int, c));
            }
            if f < c {
                assert(same_name_before(ds@, i as int, f));
            }
            assert(c == f);
            assert(m@ =~= problem_message(ds@, i as int));
        }
        return Err(validation(m));
    }
    let partial = def_partial(d);
    let inherits = def_inherits(d);
    if partial && inherits {
        let label = if kind == NamedKind::Dictionary {
            "partial WebIDL dictionary "
        } else {
            "partial WebIDL interface "
        };
        let m = message3(label, name, " must not declare inheritance");
        proof {
            assert(m@ =~= problem_message(ds@, i as int));
        }
        return Err(validation(m));
    }
    if kind == NamedKind::Mixin && inherits {
        let m = message3("WebIDL interface mixin ", name, " must not declare inheritance");
        proof {
            assert(m@ =~= problem_message(ds@, i as int));
        }
        return Err(validation(m));
    }
    if !partial && earlier_base {
        let mut m = message3("duplicate non-partial WebIDL ", kind_label(kind), " definition: ");
        push_str(&mut m, name);
        proof {
            assert(m@ =~= problem_message(ds@, i as int));
        }
        return Err(validation(m));
    }
    Ok(())
}

/// Checks every definition in order, stopping at the first problem.
fn check_definitions(ds: &Vec<Definition>) -> (r: Result<(), WebIdlError>)
    ensures
        r is Ok <==> forall|i: int| 0 <= i < ds@.len() ==> !#[trigger] problem_at(ds@, i),
        r matches Err(e) ==> e.kind == WebIdlErrorKind::Validation && exists|i: int|
            0 <= i < ds@.len() && #[trigger] problem_at(ds@, i) && (forall|k: int|
                0 <= k < i ==> !#[trigger] problem_at(ds@, k)) && e.message@ == problem_message(ds@, i),
{
    let mut i: usize = 0;
    while i < ds.len()
        invariant
            i <= ds@.len(),
            forall|k: int| 0 <= k < i ==> !#[trigger] problem_at(ds@, k),
        decreases ds@.len() - i,
    {
        match check_at(ds, i) {
            Ok(()) => {},
            Err(e) => {
                proof {
                    assert(problem_at(ds@, i as int));
                }
                return Err(e);
            },
        }
        i = i + 1;
    }
    Ok(())
}


/// Names in the order of their UTF-8 bytes.
pub open spec fn name_order(a: Seq<char>, b: Seq<char>) -> Order {
    bytes_order(encode_utf8(a), encode_utf8(b))
}

/// `includes` relations by target, then by mixin.
pub open spec fn pair_order(a: (Seq<char>, Seq<char>), b: (Seq<char>, Seq<char>)) -> Order {
    then_order(name_order(a.0, b.0), name_order(a.1, b.1))
}

/// The order of definitions, given by their positions, by name.
pub open spec fn by_name(ds: Seq<Definition>) -> spec_fn(usize, usize) -> Order {
    |a: usize, b: usize| name_order(name_of(ds[a as int]), name_of(ds[b as int]))
}

/// The order of `includes` relations, given by their positions.
pub open spec fn by_pair(ds: Seq<Definition>) -> spec_fn(usize, usize) -> Order {
    |a: usize, b: usize| pair_order(pair_of(ds[a as int]), pair_of(ds[b as int]))
}

proof fn lemma_name_order(a: Seq<char>, b: Seq<char>, c: Seq<char>)
    ensures
        (name_order(a, b) == Order::Equal) <==> (a == b),
        name_order(b, a) == flip(name_order(a, b)),
        name_order(a, b) == Order::Less && name_order(b, c) == Order::Less ==> name_order(a, c)
            == Order::Less,
{
    lemma_bytes_order_equal(encode_utf8(a), encode_utf8(b));
    lemma_encode_injective(a, b);
    lemma_bytes_order_flip(encode_utf8(a), encode_utf8(b));
    if name_order(a, b) == Order::Less && name_order(b, c) == Order::Less {
        lemma_bytes_order_trans(encode_utf8(a), encode_utf8(b), encode_utf8(c));
    }
}

proof fn lemma_orders_transitive(ds: Seq<Definition>)
    ensures
        less_is_transitive(by_name(ds)),
        less_is_transitive(by_pair(ds)),
{
    assert forall|a: usize, b: usize, c: usize|
        #![trigger by_name(ds)(a, b), by_name(ds)(b, c)]
        by_name(ds)(a, b) == Order::Less && by_name(ds)(b, c) == Order::Less implies by_name(ds)(
        a,
        c,
    ) == Order::Less by {
        lemma_name_order(name_of(ds[a as int]), name_of(ds[b as int]), name_of(ds[c as int]));
    }
    assert forall|a: usize, b: usize, c: usize|
        #![trigger by_pair(ds)(a, b), by_pair(ds)(b, c)]
        by_pair(ds)(a, b) == Order::Less && by_pair(ds)(b, c) == Order::Less implies by_pair(ds)(
        a,
        c,
    ) == Order::Less by {
        let (x, y, z) = (pair_of(ds[a as int]), pair_of(ds[b as int]), pair_of(ds[c as int]));
        lemma_name_order(x.0, y.0, z.0);
        lemma_name_order(x.1, y.1, z.1);
        lemma_name_order(x.0, z.0, y.0);
        lemma_name_order(y.0, z.0, x.0);
    }
}

/// With no problem at any position, definitions that share a name share a
/// kind, and only mergeable kinds share names.
proof fn lemma_uniform_kinds(ds: Seq<Definition>, i: int, j: int)
    requires
        forall|k: int| 0 <= k < ds.len() ==> !#[trigger] problem_at(ds, k),
        0 <= i < ds.len(),
        0 <= j < ds.len(),
        i != j,
        named(ds[i]),
        named(ds[j]),
        name_of(ds[i]) == name_of(ds[j]),
    ensures
        kind_of(ds[i]) == kind_of(ds[j]),
        mergeable(kind_of(ds[i])),
        !partial_of(ds[i]) ==> partial_of(ds[j]),
{
    if i < j {
        assert(!problem_at(ds, j));
        assert(same_name_before(ds, j, i));
    } else {
        assert(!problem_at(ds, i));
        assert(same_name_before(ds, i, j));
    }
}

fn name_compare(a: &str, b: &str) -> (r: Order)
    ensures
        r == name_order(a@, b@),
{
    compare_bytes(a.as_bytes(), b.as_bytes())
}

fn pair_compare(a: &Definition, b: &Definition) -> (r: Order)
    ensures
        r == pair_order(pair_of(*a), pair_of(*b)),
{
    let (at, am) = pair_parts(a);
    let (bt, bm) = pair_parts(b);
    let first = name_compare(at, bt);
    match first {
        Order::Equal => name_compare(am, bm),
        _ => first,
    }
}

/// The positions of the first definition of each name, in name order.
fn sorted_names(ds: &Vec<Definition>) -> (r: Vec<usize>)
    requires
        forall|k: int| 0 <= k < ds@.len() ==> !#[trigger] problem_at(ds@, k),
    ensures
        sorted_by(r@, by_name(ds@)),
        forall|p: int| 0 <= p < r@.len() ==> (#[trigger] r@[p]) < ds@.len() && named(ds@[r@[p] as int]),
        forall|i: int|
            0 <= i < ds@.len() && named(#[trigger] ds@[i]) ==> exists|p: int|
                0 <= p < r@.len() && name_of(ds@[r@[p] as int]) == name_of(ds@[i]),
{
    let mut names: Vec<usize> = Vec::new();
    let mut i: usize = 0;
    proof {
        lemma_orders_transitive(ds@);
    }
    while i < ds.len()
        invariant
            i <= ds@.len(),
            less_is_transitive(by_name(ds@)),
            sorted_by(names@, by_name(ds@)),
            forall|p: int| 0 <= p < names@.len() ==> (#[trigger] names@[p]) < ds@.len() && named(
                ds@[names@[p] as int],
            ),
            forall|k: int|
                0 <= k < i && named(#[trigger] ds@[k]) ==> exists|p: int|
                    0 <= p < names@.len() && name_of(ds@[names@[p] as int]) == name_of(ds@[k]),
        decreases ds@.len() - i,
    {
        let d = &ds[i];
        if is_named(d) {
            let name = def_name(d);
            let mut p: usize = 0;
            let mut scanning = true;
            while scanning && p < names.len()
                invariant
                    p <= names@.len(),
                    i < ds@.len(),
                    *d == ds@[i as int],
                    named(*d),
                    name@ == name_of(*d),
                    forall|q: int| 0 <= q < names@.len() ==> (#[trigger] names@[q]) < ds@.len(),
                    forall|q: int|
                        0 <= q < p ==> #[trigger] by_name(ds@)(names@[q], i) == Order::Less,
                    !scanning ==> p < names@.len() && by_name(ds@)(names@[p as int], i) != Order::Less,
                decreases names@.len() - p + (if scanning { 1int } else { 0int }),
            {
                let c = name_compare(def_name(&ds[names[p]]), name);
                if c == Order::Less {
                    p = p + 1;
                } else {
                    scanning = false;
                }
            }
            let found = p < names.len() && name_compare(def_name(&ds[names[p]]), name)
                == Order::Equal;
            if found {
                proof {
                    lemma_name_order(name_of(ds@[names@[p as int] as int]), name@, name@);
                    assert forall|k: int|
                        0 <= k < i + 1 && named(#[trigger] ds@[k]) implies exists|q: int|
                        0 <= q < names@.len() && name_of(ds@[names@[q] as int]) == name_of(ds@[k]) by {
                        if k == i {
                            assert(name_of(ds@[names@[p as int] as int]) == name_of(ds@[k]));
                        }
                    }
                }
            } else {
                let ghost before = names@;
                proof {
                    if p < names@.len() {
                        lemma_name_order(name_of(ds@[names@[p as int] as int]), name@, name@);
                        assert(by_name(ds@)(i, names@[p as int]) == Order::Less);
                    }
                    lemma_sorted_insert(names@, by_name(ds@), p as int, i);
                }
                names.insert(p, i);
                proof {
                    assert(names@ == before.insert(p as int, i));
                    assert forall|k: int|
                        0 <= k < i + 1 && named(#[trigger] ds@[k]) implies exists|q: int|
                        0 <= q < names@.len() && name_of(ds@[names@[q] as int]) == name_of(ds@[k]) by {
                        if k == i {
                            assert(names@[p as int] == i);
                        } else {
                            let q0 = choose|q: int|
                                0 <= q < before.len() && name_of(ds@[before[q] as int]) == name_of(ds@[k]);
                            if q0 < p {
                                assert(names@[q0] == before[q0]);
                            } else {
                                assert(names@[q0 + 1] == before[q0]);
                            }
                        }
                    }
                }
            }
        }
        i = i + 1;
    }
    names
}



/// The positions of the `includes` relations, in relation order.
fn sorted_includes(ds: &Vec<Definition>) -> (r: Vec<usize>)
    requires
        forall|k: int| 0 <= k < ds@.len() ==> !#[trigger] problem_at(ds@, k),
    ensures
        sorted_by(r@, by_pair(ds@)),
        forall|p: int| 0 <= p < r@.len() ==> (#[trigger] r@[p]) < ds@.len() && !named(ds@[r@[p] as int]),
        forall|i: int|
            0 <= i < ds@.len() && !named(#[trigger] ds@[i]) ==> exists|p: int| 0 <= p < r@.len() && r@[p] == i,
{
    let mut incs: Vec<usize> = Vec::new();
    let mut i: usize = 0;
    proof {
        lemma_orders_transitive(ds@);
    }
    while i < ds.len()
        invariant
            i <= ds@.len(),
            less_is_transitive(by_pair(ds@)),
            forall|k: int| 0 <= k < ds@.len() ==> !#[trigger] problem_at(ds@, k),
            sorted_by(incs@, by_pair(ds@)),
            forall|p: int| 0 <= p < incs@.len() ==> (#[trigger] incs@[p]) < i && !named(
                ds@[incs@[p] as int],
            ),
            forall|k: int|
                0 <= k < i && !named(#[trigger] ds@[k]) ==> exists|p: int| 0 <= p < incs@.len() && incs@[p] == k,
        decreases ds@.len() - i,
    {
        let d = &ds[i];
        if !is_named(d) {
            let mut p: usize = 0;
            let mut scanning = true;
            while scanning && p < incs.len()
                invariant
                    p <= incs@.len(),
                    i < ds@.len(),
                    *d == ds@[i as int],
                    forall|q: int| 0 <= q < incs@.len() ==> (#[trigger] incs@[q]) < i,
                    forall|q: int| 0 <= q < p ==> #[trigger] by_pair(ds@)(incs@[q], i) == Order::Less,
                    !scanning ==> p < incs@.len() && by_pair(ds@)(incs@[p as int], i) != Order::Less,
                decreases incs@.len() - p + (if scanning { 1int } else { 0int }),
            {
                let c = pair_compare(&ds[incs[p]], d);
                if c == Order::Less {
                    p = p + 1;
                } else {
                    scanning = false;
                }
            }
            let ghost before = incs@;
            proof {
                if p < incs@.len() {
                    let j = incs@[p as int] as int;
                    let (x, y) = (pair_of(ds@[j]), pair_of(ds@[i as int]));
                    lemma_name_order(x.0, y.0, y.0);
                    lemma_name_order(x.1, y.1, y.1);
                    assert(!problem_at(ds@, i as int));
                    assert(!(!named(ds@[j]) && pair_of(ds@[j]) == pair_of(ds@[i as int])));
                    assert(by_pair(ds@)(i, incs@[p as int]) == Order::Less);
                }
                lemma_sorted_insert(incs@, by_pair(ds@), p as int, i);
            }
            incs.insert(p, i);
            proof {
                assert(incs@ == before.insert(p as int, i));
                assert forall|k: int|
                    0 <= k < i + 1 && !named(#[trigger] ds@[k]) implies exists|q: int|
                    0 <= q < incs@.len() && incs@[q] == k by {
                    if k == i {
                        assert(incs@[p as int] == i);
                    } else {
                        let q0 = choose|q: int| 0 <= q < before.len() && before[q] == k;
                        if q0 < p {
                            assert(incs@[q0] == before[q0]);
                        } else {
                            assert(incs@[q0 + 1] == before[q0]);
                        }
                    }
                }
                assert forall|q: int| 0 <= q < incs@.len() implies (#[trigger] incs@[q]) < i + 1 && !named(
                    ds@[incs@[q] as int],
                ) by {
                    if q < p {
                        assert(incs@[q] == before[q]);
                    } else if q > p {
                        assert(incs@[q] == before[q - 1]);
                    }
                }
            }
        }
        i = i + 1;
    }
    incs
}

/// The position of the first named definition with the name, if any.
fn find_named(ds: &Vec<Definition>, name: &str) -> (r: Option<usize>)
    ensures
        (match r {
            Some(j) => j < ds@.len() && named(ds@[j as int]) && name_of(ds@[j as int]) == name@
                && forall|k: int| 0 <= k < j ==> !(named(#[trigger] ds@[k]) && name_of(ds@[k]) == name@),
            None => forall|j: int|
                0 <= j < ds@.len() ==> !(named(#[trigger] ds@[j]) && name_of(ds@[j]) == name@),
        }),
{
    let mut j: usize = 0;
    while j < ds.len()
        invariant
            j <= ds@.len(),
            forall|k: int| 0 <= k < j ==> !(named(#[trigger] ds@[k]) && name_of(ds@[k]) == name@),
        decreases ds@.len() - j,
    {
        if is_named(&ds[j]) && str_eq(def_name(&ds[j]), name) {
            return Some(j);
        }
        j = j + 1;
    }
    None
}

/// Checks that one side of an `includes` relation names a definition of
/// the expected kind.
fn check_side(ds: &Vec<Definition>, name: &str, expected: NamedKind, role: &str, wanted: &str) -> (r:
    Result<(), WebIdlError>)
    requires
        forall|k: int| 0 <= k < ds@.len() ==> !#[trigger] problem_at(ds@, k),
    ensures
        r is Ok <==> defines(ds@, name@, expected),
        r matches Err(e) ==> e.kind == WebIdlErrorKind::Validation && e.message@ == side_message(
            ds@,
            name@,
            role@,
            wanted@,
        ),
{
    match find_named(ds, name) {
        None => {
            let mut m = message3("WebIDL includes ", role, " ");
            push_str(&mut m, name);
            push_str(&mut m, " has no ");
            push_str(&mut m, wanted);
            push_str(&mut m, " definition");
            proof {
                assert(m@ =~= side_message(ds@, name@, role@, wanted@));
            }
            Err(validation(m))
        },
        Some(j) => {
            let kind = def_kind(&ds[j]);
            proof {
                if defines(ds@, name@, expected) {
                    let k = choose|k: int|
                        0 <= k < ds@.len() && named(#[trigger] ds@[k]) && name_of(ds@[k]) == name@
                            && kind_of(ds@[k]) == expected;
                    if k != j {
                        lemma_uniform_kinds(ds@, k, j as int);
                    }
                }
            }
            if kind != expected {
                let mut m = message3("WebIDL includes ", role, " ");
                push_str(&mut m, name);
                push_str(&mut m, " is ");
                push_str(&mut m, kind_label(kind));
                push_str(&mut m, ", not an ");
                push_str(&mut m, wanted);
                proof {
                    let f = first_named(ds@, name@);
                    assert(named(ds@[j as int]) && name_of(ds@[j as int]) == name@);
                    assert(0 <= f < ds@.len() && named(ds@[f]) && name_of(ds@[f]) == name@ && forall|k2: int|
                        0 <= k2 < f ==> !(named(#[trigger] ds@[k2]) && name_of(ds@[k2]) == name@));
                    if f < j {
                        assert(named(ds@[f]) && name_of(ds@[f]) == name@);
                    }
                    if j < f {
                        assert(named(ds@[j as int]) && name_of(ds@[j as int]) == name@);
                    }
                    assert(f == j);
                    assert(m@ =~= side_message(ds@, name@, role@, wanted@));
                }
                Err(validation(m))
            } else {
                proof {
                    assert(named(ds@[j as int]) && name_of(ds@[j as int]) == name@ && kind_of(
                        ds@[j as int],
                    ) == expected);
                }
                Ok(())
            }
        },
    }
}

/// Checks every `includes` relation, in relation order.
fn check_includes(ds: &Vec<Definition>, incs: &Vec<usize>) -> (r: Result<(), WebIdlError>)
    requires
        forall|k: int| 0 <= k < ds@.len() ==> !#[trigger] problem_at(ds@, k),
        forall|p: int| 0 <= p < incs@.len() ==> (#[trigger] incs@[p]) < ds@.len() && !named(ds@[incs@[p] as int]),
        forall|i: int|
            0 <= i < ds@.len() && !named(#[trigger] ds@[i]) ==> exists|p: int| 0 <= p < incs@.len() && incs@[p] == i,
    ensures
        r is Ok <==> forall|i: int|
            0 <= i < ds@.len() && !named(#[trigger] ds@[i]) ==> defines(ds@, pair_of(ds@[i]).0, NamedKind::Interface)
                && defines(ds@, pair_of(ds@[i]).1, NamedKind::Mixin),
        r matches Err(e) ==> e.kind == WebIdlErrorKind::Validation && exists|i: int|
            0 <= i < ds@.len() && !named(#[trigger] ds@[i]) && if !defines(
                ds@,
                pair_of(ds@[i]).0,
                NamedKind::Interface,
            ) {
                e.message@ == side_message(ds@, pair_of(ds@[i]).0, "target"@, "interface"@)
            } else {
                !defines(ds@, pair_of(ds@[i]).1, NamedKind::Mixin) && e.message@ == side_message(
                    ds@,
                    pair_of(ds@[i]).1,
                    "source"@,
                    "interface mixin"@,
                )
            },
{
    let mut q: usize = 0;
    while q < incs.len()
        invariant
            q <= incs@.len(),
            forall|k: int| 0 <= k < ds@.len() ==> !#[trigger] problem_at(ds@, k),
            forall|p: int| 0 <= p < incs@.len() ==> (#[trigger] incs@[p]) < ds@.len() && !named(ds@[incs@[p] as int]),
            forall|p: int|
                0 <= p < q ==> defines(ds@, pair_of(ds@[#[trigger] incs@[p] as int]).0, NamedKind::Interface)
                    && defines(ds@, pair_of(ds@[incs@[p] as int]).1, NamedKind::Mixin),
        decreases incs@.len() - q,
    {
        let d = &ds[incs[q]];
        let (target, mixin) = pair_parts(d);
        let ghost at = incs@[q as int] as int;
        match check_side(ds, target, NamedKind::Interface, "target", "interface") {
            Ok(()) => {},
            Err(e) => {
                proof {
                    assert(!named(ds@[at]));
                }
                return Err(e);
            },
        }
        match check_side(ds, mixin, NamedKind::Mixin, "source", "interface mixin") {
            Ok(()) => {},
            Err(e) => {
                proof {
                    assert(!named(ds@[at]));
                }
                return Err(e);
            },
        }
        q = q + 1;
    }
    proof {
        assert forall|i: int|
            0 <= i < ds@.len() && !named(#[trigger] ds@[i]) implies defines(ds@, pair_of(ds@[i]).0, NamedKind::Interface)
            && defines(ds@, pair_of(ds@[i]).1, NamedKind::Mixin) by {
            let p = choose|p: int| 0 <= p < incs@.len() && incs@[p] == i;
            assert(incs@[p] == i);
        }
    }
    Ok(())
}

/// Whether some non-partial definition has the name.
fn find_base(ds: &Vec<Definition>, name: &str) -> (r: Option<usize>)
    ensures
        (match r {
            Some(j) => j < ds@.len() && named(ds@[j as int]) && name_of(ds@[j as int]) == name@
                && !partial_of(ds@[j as int]),
            None => !has_base(ds@, name@),
        }),
{
    let mut j: usize = 0;
    while j < ds.len()
        invariant
            j <= ds@.len(),
            forall|k: int|
                0 <= k < j ==> !(named(#[trigger] ds@[k]) && name_of(ds@[k]) == name@ && !partial_of(ds@[k])),
        decreases ds@.len() - j,
    {
        if is_named(&ds[j]) && !def_partial(&ds[j]) && str_eq(def_name(&ds[j]), name) {
            return Some(j);
        }
        j = j + 1;
    }
    None
}

/// Checks that every interface or dictionary name has a non-partial
/// definition, in name order.
fn check_complete(ds: &Vec<Definition>, names: &Vec<usize>) -> (r: Result<(), WebIdlError>)
    requires
        forall|k: int| 0 <= k < ds@.len() ==> !#[trigger] problem_at(ds@, k),
        forall|p: int| 0 <= p < names@.len() ==> (#[trigger] names@[p]) < ds@.len() && named(ds@[names@[p] as int]),
        forall|i: int|
            0 <= i < ds@.len() && named(#[trigger] ds@[i]) ==> exists|p: int|
                0 <= p < names@.len() && name_of(ds@[names@[p] as int]) == name_of(ds@[i]),
    ensures
        r is Ok <==> forall|i: int|
            0 <= i < ds@.len() && named(#[trigger] ds@[i]) && mergeable(kind_of(ds@[i])) ==> has_base(
                ds@,
                name_of(ds@[i]),
            ),
        r matches Err(e) ==> e.kind == WebIdlErrorKind::Validation && exists|i: int|
            0 <= i < ds@.len() && named(#[trigger] ds@[i]) && mergeable(kind_of(ds@[i])) && !has_base(
                ds@,
                name_of(ds@[i]),
            ) && e.message@ == incomplete_message(kind_of(ds@[i]), name_of(ds@[i])),
{
    let mut p: usize = 0;
    while p < names.len()
        invariant
            p <= names@.len(),
            forall|k: int| 0 <= k < ds@.len() ==> !#[trigger] problem_at(ds@, k),
            forall|q: int| 0 <= q < names@.len() ==> (#[trigger] names@[q]) < ds@.len() && named(ds@[names@[q] as int]),
            forall|q: int|
                0 <= q < p && mergeable(kind_of(ds@[#[trigger] names@[q] as int])) ==> has_base(
                    ds@,
                    name_of(ds@[names@[q] as int]),
                ),
        decreases names@.len() - p,
    {
        let d = &ds[names[p]];
        let kind = def_kind(d);
        if is_mergeable(kind) {
            let name = def_name(d);
            if find_base(ds, name).is_none() {
                let mut m = message3("partial WebIDL ", kind_label(kind), " ");
                push_str(&mut m, name);
                push_str(&mut m, " has no non-partial definition");
                proof {
                    assert(m@ =~= incomplete_message(kind, name@));
                    assert(named(ds@[names@[p as int] as int]));
                }
                return Err(validation(m));
            }
        }
        p = p + 1;
    }
    proof {
        assert forall|i: int|
            0 <= i < ds@.len() && named(#[trigger] ds@[i]) && mergeable(kind_of(ds@[i])) implies has_base(
            ds@,
            name_of(ds@[i]),
        ) by {
            let q = choose|q: int|
                0 <= q < names@.len() && name_of(ds@[names@[q] as int]) == name_of(ds@[i]);
            let j = names@[q] as int;
            if j != i {
                lemma_uniform_kinds(ds@, i, j);
            }
        }
    }
    Ok(())
}


/// The members of the partial interfaces with the name, in order.
pub open spec fn partial_interface_members(ds: Seq<Definition>, n: Seq<char>) -> Seq<InterfaceMember>
    decreases ds.len(),
{
    if ds.len() == 0 {
        Seq::empty()
    } else {
        partial_interface_members(ds.drop_last(), n) + match ds.last() {
            Definition::Interface(x) => if x.partial && x.name@ == n {
                x.members@
            } else {
                Seq::empty()
            },
            _ => Seq::empty(),
        }
    }
}

/// The members of the partial dictionaries with the name, in order.
pub open spec fn partial_dictionary_members(ds: Seq<Definition>, n: Seq<char>) -> Seq<DictionaryMember>
    decreases ds.len(),
{
    if ds.len() == 0 {
        Seq::empty()
    } else {
        partial_dictionary_members(ds.drop_last(), n) + match ds.last() {
            Definition::Dictionary(x) => if x.partial && x.name@ == n {
                x.members@
            } else {
                Seq::empty()
            },
            _ => Seq::empty(),
        }
    }
}

/// `d` is the non-partial definition at `b` with the members of the
/// partial definitions of its name appended in order; an enum or typedef is
/// the definition itself.
pub open spec fn merges(ds: Seq<Definition>, b: int, d: Definition) -> bool {
    match ds[b] {
        Definition::Interface(y) => (d matches Definition::Interface(x) && x.name == y.name
            && x.inherits == y.inherits && x.mixin == y.mixin && !x.partial && x.members@
            == y.members@ + partial_interface_members(ds, y.name@)),
        Definition::Dictionary(y) => (d matches Definition::Dictionary(x) && x.name == y.name
            && x.inherits == y.inherits && !x.partial && x.members@ == y.members@
            + partial_dictionary_members(ds, y.name@)),
        _ => d == ds[b],
    }
}

/// `d` is the merged definition of its name.
pub open spec fn merged_from(ds: Seq<Definition>, d: Definition) -> bool {
    exists|b: int|
        0 <= b < ds.len() && named(ds[b]) && name_of(ds[b]) == name_of(d) && !partial_of(ds[b])
            && #[trigger] merges(ds, b, d)
}

/// `out` is the binding metadata of `ds`, split at `k`: the merged
/// definition of every name in name order, then every `includes` relation
/// in relation order.
pub open spec fn split_output(ds: Seq<Definition>, out: Seq<Definition>, k: int) -> bool {
    &&& 0 <= k <= out.len()
    &&& named_part(ds, out, k)
    &&& includes_part(ds, out, k)
}

/// Before `k`: the merged definition of every name, in name order.
pub open spec fn named_part(ds: Seq<Definition>, out: Seq<Definition>, k: int) -> bool {
    &&& forall|p: int| 0 <= p < k ==> named(#[trigger] out[p]) && merged_from(ds, out[p])
    &&& forall|p: int, q: int|
        0 <= p < q < k ==> name_order(name_of(#[trigger] out[p]), name_of(#[trigger] out[q]))
            == Order::Less
    &&& forall|i: int|
        0 <= i < ds.len() && named(#[trigger] ds[i]) ==> exists|p: int|
            0 <= p < k && name_of(out[p]) == name_of(ds[i])
}

/// From `k` on: every `includes` relation, in relation order.
pub open spec fn includes_part(ds: Seq<Definition>, out: Seq<Definition>, k: int) -> bool {
    &&& forall|q: int|
        k <= q < out.len() ==> !named(#[trigger] out[q]) && exists|i: int|
            0 <= i < ds.len() && !named(#[trigger] ds[i]) && out[q] == ds[i]
    &&& forall|q: int, r: int|
        k <= q < r < out.len() ==> pair_order(pair_of(#[trigger] out[q]), pair_of(#[trigger] out[r]))
            == Order::Less
    &&& forall|i: int|
        0 <= i < ds.len() && !named(#[trigger] ds[i]) ==> exists|q: int| k <= q < out.len() && out[q] == ds[i]
}

/// `out` is the binding metadata of `ds`: for some split, the merged
/// definitions in name order, then the `includes` relations in order.
pub open spec fn binding_of(ds: Seq<Definition>, out: Seq<Definition>) -> bool {
    exists|k: int| #[trigger] split_output(ds, out, k)
}

fn take_slot(slots: &mut Vec<Option<Definition>>, i: usize) -> (r: Option<Definition>)
    requires
        i < old(slots)@.len(),
    ensures
        r == old(slots)@[i as int],
        final(slots)@ == old(slots)@.update(i as int, None),
{
    let v = slots.remove(i);
    slots.insert(i, None);
    proof {
        assert(slots@ =~= old(slots)@.update(i as int, None));
    }
    v
}

fn into_slots(ds: Vec<Definition>) -> (r: Vec<Option<Definition>>)
    ensures
        r@.len() == ds@.len(),
        forall|i: int| 0 <= i < ds@.len() ==> #[trigger] r@[i] == Some(ds@[i]),
{
    let ghost orig = ds@;
    let mut rest = ds;
    let mut slots: Vec<Option<Definition>> = Vec::new();
    while rest.len() > 0
        invariant
            slots@.len() + rest@.len() == orig.len(),
            rest@ == orig.skip(slots@.len() as int),
            forall|i: int| 0 <= i < slots@.len() ==> #[trigger] slots@[i] == Some(orig[i]),
        decreases rest@.len(),
    {
        let d = rest.remove(0);
        proof {
            assert(d == orig[slots@.len() as int]);
        }
        slots.push(Some(d));
        proof {
            assert(rest@ =~= orig.skip(slots@.len() as int));
        }
    }
    slots
}

proof fn lemma_partial_members_step(ds: Seq<Definition>, i: int, n: Seq<char>)
    requires
        0 <= i < ds.len(),
    ensures
        partial_interface_members(ds.take(i + 1), n) == partial_interface_members(ds.take(i), n)
            + match ds[i] {
            Definition::Interface(x) => if x.partial && x.name@ == n {
                x.members@
            } else {
                Seq::empty()
            },
            _ => Seq::empty(),
        },
        partial_dictionary_members(ds.take(i + 1), n) == partial_dictionary_members(ds.take(i), n)
            + match ds[i] {
            Definition::Dictionary(x) => if x.partial && x.name@ == n {
                x.members@
            } else {
                Seq::empty()
            },
            _ => Seq::empty(),
        },
{
    assert(ds.take(i + 1).drop_last() =~= ds.take(i));
    assert(ds.take(i + 1).last() == ds[i]);
}

proof fn lemma_uniform_kinds_or_same(ds: Seq<Definition>, i: int, j: int)
    requires
        binds(ds),
        0 <= i < ds.len(),
        0 <= j < ds.len(),
        named(ds[i]),
        named(ds[j]),
        name_of(ds[i]) == name_of(ds[j]),
    ensures
        kind_of(ds[i]) == kind_of(ds[j]),
{
    if i != j {
        lemma_uniform_kinds(ds, i, j);
    }
}

/// The position of the non-partial definition of a name among the slots.
fn find_base_slot(slots: &Vec<Option<Definition>>, name: &str, ds: Ghost<Seq<Definition>>) -> (r: usize)
    requires
        slots@.len() == ds@.len(),
        has_base(ds@, name@),
        forall|i: int| 0 <= i < ds@.len() && (#[trigger] slots@[i]) is Some ==> slots@[i] == Some(ds@[i]),
        forall|i: int|
            0 <= i < ds@.len() && named(#[trigger] ds@[i]) && name_of(ds@[i]) == name@ ==> slots@[i]
                == Some(ds@[i]),
    ensures
        r < ds@.len(),
        named(ds@[r as int]),
        name_of(ds@[r as int]) == name@,
        !partial_of(ds@[r as int]),
        slots@[r as int] == Some(ds@[r as int]),
{
    let mut j: usize = 0;
    while j < slots.len()
        invariant
            slots@.len() == ds@.len(),
            j <= ds@.len(),
            forall|i: int| 0 <= i < ds@.len() && (#[trigger] slots@[i]) is Some ==> slots@[i] == Some(ds@[i]),
            forall|i: int|
                0 <= i < ds@.len() && named(#[trigger] ds@[i]) && name_of(ds@[i]) == name@ ==> slots@[i]
                    == Some(ds@[i]),
            forall|k: int|
                0 <= k < j ==> !(named(#[trigger] ds@[k]) && name_of(ds@[k]) == name@ && !partial_of(ds@[k])),
        decreases ds@.len() - j,
    {
        let hit = match &slots[j] {
            Some(d) => is_named(d) && !def_partial(d) && str_eq(def_name(d), name),
            None => false,
        };
        if hit {
            proof {
                assert(slots@[j as int] is Some);
                assert(slots@[j as int] == Some(ds@[j as int]));
            }
            return j;
        }
        proof {
            if named(ds@[j as int]) && name_of(ds@[j as int]) == name@ {
                assert(slots@[j as int] == Some(ds@[j as int]));
            }
        }
        j = j + 1;
    }
    proof {
        let k = choose|k: int|
            0 <= k < ds@.len() && named(#[trigger] ds@[k]) && name_of(ds@[k]) == name@ && !partial_of(ds@[k]);
        assert(false);
    }
    0
}

/// Takes the definitions of one name out of the slots and merges them.
fn merge_name(slots: &mut Vec<Option<Definition>>, f: usize, ds: Ghost<Seq<Definition>>) -> (r: Definition)
    requires
        binds(ds@),
        old(slots)@.len() == ds@.len(),
        f < ds@.len(),
        named(ds@[f as int]),
        forall|i: int|
            0 <= i < ds@.len() && (#[trigger] old(slots)@[i]) is Some ==> old(slots)@[i] == Some(ds@[i]),
        forall|i: int|
            0 <= i < ds@.len() && named(#[trigger] ds@[i]) && name_of(ds@[i]) == name_of(ds@[f as int])
                ==> old(slots)@[i] == Some(ds@[i]),
    ensures
        forall|i: int|
            0 <= i < ds@.len() && (#[trigger] final(slots)@[i]) is Some ==> final(slots)@[i] == Some(ds@[i]),
        named(r),
        name_of(r) == name_of(ds@[f as int]),
        merged_from(ds@, r),
        final(slots)@.len() == ds@.len(),
        forall|i: int|
            0 <= i < ds@.len() && !(named(ds@[i]) && name_of(ds@[i]) == name_of(ds@[f as int]))
                ==> #[trigger] final(slots)@[i] == old(slots)@[i],
{
    let ghost n = name_of(ds@[f as int]);
    let name: String = match &slots[f] {
        Some(d) => def_name(d).to_owned(),
        None => String::new(),
    };
    let kind = match &slots[f] {
        Some(d) => def_kind(d),
        None => NamedKind::Enum,
    };
    proof {
        assert(slots@[f as int] == Some(ds@[f as int]));
        assert(name@ == n);
        assert(kind == kind_of(ds@[f as int]));
    }
    if !is_mergeable(kind) {
        let d = take_slot(slots, f).unwrap();
        proof {
            assert(merges(ds@, f as int, d));
            assert forall|i: int|
                0 <= i < ds@.len() && !(named(ds@[i]) && name_of(ds@[i]) == n) implies #[trigger] slots@[i]
                == old(slots)@[i] by {}
        }
        return d;
    }
    let ghost dsv = ds@;
    let b = find_base_slot(slots, name.as_str(), ds);
    let base = take_slot(slots, b).unwrap();
    proof {
        assert(base == dsv[b as int]);
        lemma_uniform_kinds_or_same(dsv, b as int, f as int);
    }
    let ghost mid = slots@;
    let merged = match base {
        Definition::Interface(mut x) => {
            let mut i: usize = 0;
            let ghost y = x;
            proof {
                assert(dsv.take(0) =~= Seq::<Definition>::empty());
                assert(x.members@ =~= y.members@ + partial_interface_members(dsv.take(0), n));
            }
            while i < slots.len()
                invariant
                    slots@.len() == dsv.len(),
                    i <= dsv.len(),
                    x.name == y.name,
                    x.inherits == y.inherits,
                    x.mixin == y.mixin,
                    x.partial == y.partial,
                    y.name@ == n,
                    name@ == n,
                    x.members@ == y.members@ + partial_interface_members(dsv.take(i as int), n),
                    forall|k: int|
                        0 <= k < dsv.len() && !(named(dsv[k]) && name_of(dsv[k]) == n) ==> #[trigger] slots@[k]
                            == mid[k],
                    forall|k: int|
                        i <= k < dsv.len() && named(#[trigger] dsv[k]) && name_of(dsv[k]) == n
                            && partial_of(dsv[k]) ==> slots@[k] == Some(dsv[k]),
                    forall|k: int|
                        0 <= k < dsv.len() && slots@[k] is Some ==> #[trigger] slots@[k] == old(slots)@[k],
                    forall|k: int|
                        0 <= k < dsv.len() && (#[trigger] slots@[k]) is Some ==> slots@[k] == Some(dsv[k]),
                    forall|k: int| 0 <= k < dsv.len() && k != b ==> #[trigger] mid[k] == old(slots)@[k],
                    mid[b as int] is None,
                    forall|k: int|
                        0 <= k < dsv.len() && named(#[trigger] dsv[k]) && name_of(dsv[k]) == n && k != b
                            ==> old(slots)@[k] == Some(dsv[k]),
                decreases dsv.len() - i,
            {
                let take = match &slots[i] {
                    Some(Definition::Interface(part)) => part.partial && str_eq(part.name.as_str(), name.as_str()),
                    _ => false,
                };
                let ghost before = slots@;
                let ghost members_before = x.members@;
                proof {
                    lemma_partial_members_step(dsv, i as int, n);
                }
                if take {
                    proof {
                        assert(before[i as int] is Some);
                        assert(before[i as int] == Some(dsv[i as int]));
                    }
                    let part = take_slot(slots, i).unwrap();
                    match part {
                        Definition::Interface(mut p) => {
                            proof {
                                assert(named(dsv[i as int]) && name_of(dsv[i as int]) == n);
                            }
                            x.members.append(&mut p.members);
                            proof {
                                assert(x.members@ =~= y.members@ + partial_interface_members(dsv.take(i + 1), n));
                            }
                        },
                        _ => {},
                    }
                    proof {
                        assert forall|k: int|
                            0 <= k < dsv.len() && !(named(dsv[k]) && name_of(dsv[k]) == n) implies #[trigger] slots@[k]
                            == mid[k] by {
                            assert(k != i);
                        }
                    }
                } else {
                    proof {
                        if named(dsv[i as int]) && name_of(dsv[i as int]) == n && partial_of(dsv[i as int]) {
                            assert(slots@[i as int] == Some(dsv[i as int]));
                        }
                        assert(x.members@ =~= y.members@ + partial_interface_members(dsv.take(i + 1), n));
                    }
                }
                i = i + 1;
            }
            proof {
                assert(dsv.take(dsv.len() as int) =~= dsv);
            }
            Definition::Interface(x)
        },
        Definition::Dictionary(mut x) => {
            let mut i: usize = 0;
            let ghost y = x;
            proof {
                assert(dsv.take(0) =~= Seq::<Definition>::empty());
                assert(x.members@ =~= y.members@ + partial_dictionary_members(dsv.take(0), n));
            }
            while i < slots.len()
                invariant
                    slots@.len() == dsv.len(),
                    i <= dsv.len(),
                    x.name == y.name,
                    x.inherits == y.inherits,
                    x.partial == y.partial,
                    y.name@ == n,
                    name@ == n,
                    x.members@ == y.members@ + partial_dictionary_members(dsv.take(i as int), n),
                    forall|k: int|
                        0 <= k < dsv.len() && !(named(dsv[k]) && name_of(dsv[k]) == n) ==> #[trigger] slots@[k]
                            == mid[k],
                    forall|k: int|
                        i <= k < dsv.len() && named(#[trigger] dsv[k]) && name_of(dsv[k]) == n
                            && partial_of(dsv[k]) ==> slots@[k] == Some(dsv[k]),
                    forall|k: int|
                        0 <= k < dsv.len() && slots@[k] is Some ==> #[trigger] slots@[k] == old(slots)@[k],
                    forall|k: int|
                        0 <= k < dsv.len() && (#[trigger] slots@[k]) is Some ==> slots@[k] == Some(dsv[k]),
                    forall|k: int| 0 <= k < dsv.len() && k != b ==> #[trigger] mid[k] == old(slots)@[k],
                    mid[b as int] is None,
                    forall|k: int|
                        0 <= k < dsv.len() && named(#[trigger] dsv[k]) && name_of(dsv[k]) == n && k != b
                            ==> old(slots)@[k] == Some(dsv[k]),
                decreases dsv.len() - i,
            {
                let take = match &slots[i] {
                    Some(Definition::Dictionary(part)) => part.partial && str_eq(part.name.as_str(), name.as_str()),
                    _ => false,
                };
                let ghost before = slots@;
                let ghost members_before = x.members@;
                proof {
                    lemma_partial_members_step(dsv, i as int, n);
                }
                if take {
                    proof {
                        assert(before[i as int] is Some);
                        assert(before[i as int] == Some(dsv[i as int]));
                    }
                    let part = take_slot(slots, i).unwrap();
                    match part {
                        Definition::Dictionary(mut p) => {
                            proof {
                                assert(named(dsv[i as int]) && name_of(dsv[i as int]) == n);
                            }
                            x.members.append(&mut p.members);
                            proof {
                                assert(x.members@ =~= y.members@ + partial_dictionary_members(dsv.take(i + 1), n));
                            }
                        },
                        _ => {},
                    }
                    proof {
                        assert forall|k: int|
                            0 <= k < dsv.len() && !(named(dsv[k]) && name_of(dsv[k]) == n) implies #[trigger] slots@[k]
                            == mid[k] by {
                            assert(k != i);
                        }
                    }
                } else {
                    proof {
                        if named(dsv[i as int]) && name_of(dsv[i as int]) == n && partial_of(dsv[i as int]) {
                            assert(slots@[i as int] == Some(dsv[i as int]));
                        }
                        assert(x.members@ =~= y.members@ + partial_dictionary_members(dsv.take(i + 1), n));
                    }
                }
                i = i + 1;
            }
            proof {
                assert(dsv.take(dsv.len() as int) =~= dsv);
            }
            Definition::Dictionary(x)
        },
        other => other,
    };
    proof {
        assert(merges(dsv, b as int, merged));
    }
    merged
}


proof fn lemma_output_named(
    dsv: Seq<Definition>,
    names: Seq<usize>,
    incs: Seq<usize>,
    named_out: Seq<Definition>,
    o: Seq<Definition>,
)
    requires
        sorted_by(names, by_name(dsv)),
        forall|p: int| 0 <= p < names.len() ==> (#[trigger] names[p]) < dsv.len() && named(dsv[names[p] as int]),
        forall|i: int|
            0 <= i < dsv.len() && named(#[trigger] dsv[i]) ==> exists|p: int|
                0 <= p < names.len() && name_of(dsv[names[p] as int]) == name_of(dsv[i]),
        sorted_by(incs, by_pair(dsv)),
        forall|p: int| 0 <= p < incs.len() ==> (#[trigger] incs[p]) < dsv.len() && !named(dsv[incs[p] as int]),
        forall|i: int|
            0 <= i < dsv.len() && !named(#[trigger] dsv[i]) ==> exists|p: int| 0 <= p < incs.len() && incs[p] == i,
        named_out.len() == names.len(),
        forall|q: int|
            0 <= q < names.len() ==> named(#[trigger] named_out[q]) && merged_from(dsv, named_out[q])
                && name_of(named_out[q]) == name_of(dsv[names[q] as int]),
        o.len() == names.len() + incs.len(),
        o.take(names.len() as int) == named_out,
        forall|r: int| 0 <= r < incs.len() ==> #[trigger] o[names.len() + r] == dsv[incs[r] as int],
    ensures
        named_part(dsv, o, names.len() as int),
{
    let k = names.len() as int;
        assert forall|pp: int| 0 <= pp < k implies o[pp] == named_out[pp] by {
            assert(o.take(k)[pp] == o[pp]);
        }
        assert forall|pp: int| 0 <= pp < k implies named(#[trigger] o[pp]) && merged_from(dsv, o[pp]) by {
            assert(o[pp] == named_out[pp]);
        }
        assert forall|pp: int, qq: int|
            0 <= pp < qq < k implies name_order(name_of(#[trigger] o[pp]), name_of(#[trigger] o[qq])) == Order::Less by {
            assert(o[pp] == named_out[pp]);
            assert(o[qq] == named_out[qq]);
            assert(by_name(dsv)(names[pp], names[qq]) == Order::Less);
        }
        assert forall|i: int| 0 <= i < dsv.len() && named(#[trigger] dsv[i]) implies exists|pp: int|
            0 <= pp < k && name_of(o[pp]) == name_of(dsv[i]) by {
            let pp = choose|pp: int| 0 <= pp < names.len() && name_of(dsv[names[pp] as int]) == name_of(dsv[i]);
            assert(o[pp] == named_out[pp]);
        }
}

proof fn lemma_output_includes(
    dsv: Seq<Definition>,
    names: Seq<usize>,
    incs: Seq<usize>,
    named_out: Seq<Definition>,
    o: Seq<Definition>,
)
    requires
        sorted_by(names, by_name(dsv)),
        forall|p: int| 0 <= p < names.len() ==> (#[trigger] names[p]) < dsv.len() && named(dsv[names[p] as int]),
        forall|i: int|
            0 <= i < dsv.len() && named(#[trigger] dsv[i]) ==> exists|p: int|
                0 <= p < names.len() && name_of(dsv[names[p] as int]) == name_of(dsv[i]),
        sorted_by(incs, by_pair(dsv)),
        forall|p: int| 0 <= p < incs.len() ==> (#[trigger] incs[p]) < dsv.len() && !named(dsv[incs[p] as int]),
        forall|i: int|
            0 <= i < dsv.len() && !named(#[trigger] dsv[i]) ==> exists|p: int| 0 <= p < incs.len() && incs[p] == i,
        named_out.len() == names.len(),
        forall|q: int|
            0 <= q < names.len() ==> named(#[trigger] named_out[q]) && merged_from(dsv, named_out[q])
                && name_of(named_out[q]) == name_of(dsv[names[q] as int]),
        o.len() == names.len() + incs.len(),
        o.take(names.len() as int) == named_out,
        forall|r: int| 0 <= r < incs.len() ==> #[trigger] o[names.len() + r] == dsv[incs[r] as int],
    ensures
        includes_part(dsv, o, names.len() as int),
{
    let k = names.len() as int;
        assert forall|qq: int| k <= qq < o.len() implies !named(#[trigger] o[qq]) && exists|i: int|
            0 <= i < dsv.len() && !named(#[trigger] dsv[i]) && o[qq] == dsv[i] by {
            let r = qq - k;
            assert(o[k + r] == dsv[incs[r] as int]);
            let i = incs[r] as int;
            assert(0 <= i < dsv.len() && !named(dsv[i]) && o[qq] == dsv[i]);
        }
        assert forall|qq: int, rr: int|
            k <= qq < rr < o.len() implies pair_order(pair_of(#[trigger] o[qq]), pair_of(#[trigger] o[rr])) == Order::Less by {
            assert(o[k + (qq - k)] == dsv[incs[qq - k] as int]);
            assert(o[k + (rr - k)] == dsv[incs[rr - k] as int]);
            assert(by_pair(dsv)(incs[qq - k], incs[rr - k]) == Order::Less);
        }
        assert forall|i: int| 0 <= i < dsv.len() && !named(#[trigger] dsv[i]) implies exists|qq: int|
            k <= qq < o.len() && o[qq] == dsv[i] by {
            let r = choose|r: int| 0 <= r < incs.len() && incs[r] == i;
            assert(o[k + r] == dsv[incs[r] as int]);
        }
}

proof fn lemma_output_split(
    dsv: Seq<Definition>,
    names: Seq<usize>,
    incs: Seq<usize>,
    named_out: Seq<Definition>,
    o: Seq<Definition>,
)
    requires
        sorted_by(names, by_name(dsv)),
        forall|p: int| 0 <= p < names.len() ==> (#[trigger] names[p]) < dsv.len() && named(dsv[names[p] as int]),
        forall|i: int|
            0 <= i < dsv.len() && named(#[trigger] dsv[i]) ==> exists|p: int|
                0 <= p < names.len() && name_of(dsv[names[p] as int]) == name_of(dsv[i]),
        sorted_by(incs, by_pair(dsv)),
        forall|p: int| 0 <= p < incs.len() ==> (#[trigger] incs[p]) < dsv.len() && !named(dsv[incs[p] as int]),
        forall|i: int|
            0 <= i < dsv.len() && !named(#[trigger] dsv[i]) ==> exists|p: int| 0 <= p < incs.len() && incs[p] == i,
        named_out.len() == names.len(),
        forall|q: int|
            0 <= q < names.len() ==> named(#[trigger] named_out[q]) && merged_from(dsv, named_out[q])
                && name_of(named_out[q]) == name_of(dsv[names[q] as int]),
        o.len() == names.len() + incs.len(),
        o.take(names.len() as int) == named_out,
        forall|r: int| 0 <= r < incs.len() ==> #[trigger] o[names.len() + r] == dsv[incs[r] as int],
    ensures
        split_output(dsv, o, names.len() as int),
{
    lemma_output_named(dsv, names, incs, named_out, o);
    lemma_output_includes(dsv, names, incs, named_out, o);
}

/// Moves the merged definitions, in name order, and then the `includes`
/// relations, in relation order, out of the module.
#[verifier::rlimit(80)]
#[verifier::spinoff_prover]
fn build_output(ds: Vec<Definition>, names: &Vec<usize>, incs: &Vec<usize>) -> (r: Vec<Definition>)
    requires
        binds(ds@),
        sorted_by(names@, by_name(ds@)),
        forall|p: int| 0 <= p < names@.len() ==> (#[trigger] names@[p]) < ds@.len() && named(ds@[names@[p] as int]),
        forall|i: int|
            0 <= i < ds@.len() && named(#[trigger] ds@[i]) ==> exists|p: int|
                0 <= p < names@.len() && name_of(ds@[names@[p] as int]) == name_of(ds@[i]),
        sorted_by(incs@, by_pair(ds@)),
        forall|p: int| 0 <= p < incs@.len() ==> (#[trigger] incs@[p]) < ds@.len() && !named(ds@[incs@[p] as int]),
        forall|i: int|
            0 <= i < ds@.len() && !named(#[trigger] ds@[i]) ==> exists|p: int| 0 <= p < incs@.len() && incs@[p] == i,
    ensures
        split_output(ds@, r@, names@.len() as int),
{
    let ghost dsv = ds@;
    let mut slots = into_slots(ds);
    let mut out: Vec<Definition> = Vec::new();
    let mut p: usize = 0;
    while p < names.len()
        invariant
            binds(dsv),
            p <= names@.len(),
            slots@.len() == dsv.len(),
            out@.len() == p,
            sorted_by(names@, by_name(dsv)),
            forall|q: int| 0 <= q < names@.len() ==> (#[trigger] names@[q]) < dsv.len() && named(dsv[names@[q] as int]),
            forall|k: int| 0 <= k < dsv.len() && (#[trigger] slots@[k]) is Some ==> slots@[k] == Some(dsv[k]),
            forall|q: int|
                0 <= q < p ==> named(#[trigger] out@[q]) && merged_from(dsv, out@[q]) && name_of(out@[q])
                    == name_of(dsv[names@[q] as int]),
            forall|i: int|
                0 <= i < dsv.len() && named(#[trigger] dsv[i]) && (forall|q: int|
                    0 <= q < p ==> name_of(dsv[#[trigger] names@[q] as int]) != name_of(dsv[i])) ==> slots@[i]
                    == Some(dsv[i]),
            forall|i: int| 0 <= i < dsv.len() && !named(#[trigger] dsv[i]) ==> slots@[i] == Some(dsv[i]),
        decreases names@.len() - p,
    {
        let f = names[p];
        proof {
            assert forall|i: int|
                0 <= i < dsv.len() && named(#[trigger] dsv[i]) && name_of(dsv[i]) == name_of(dsv[f as int])
                    implies slots@[i] == Some(dsv[i]) by {
                assert forall|q: int| 0 <= q < p implies name_of(dsv[#[trigger] names@[q] as int]) != name_of(dsv[i]) by {
                    assert(by_name(dsv)(names@[q], names@[p as int]) == Order::Less);
                    lemma_name_order(name_of(dsv[names@[q] as int]), name_of(dsv[f as int]), name_of(dsv[f as int]));
                }
            }
        }
        let ghost before = slots@;
        let d = merge_name(&mut slots, f, Ghost(dsv));
        out.push(d);
        proof {
            assert forall|i: int|
                0 <= i < dsv.len() && named(#[trigger] dsv[i]) && (forall|q: int|
                    0 <= q < p + 1 ==> name_of(dsv[#[trigger] names@[q] as int]) != name_of(dsv[i])) implies slots@[i]
                == Some(dsv[i]) by {
                assert(name_of(dsv[names@[p as int] as int]) != name_of(dsv[i]));
                assert forall|q: int| 0 <= q < p implies name_of(dsv[#[trigger] names@[q] as int]) != name_of(dsv[i]) by {
                    assert(name_of(dsv[names@[q] as int]) != name_of(dsv[i]));
                }
            }
            assert forall|i: int| 0 <= i < dsv.len() && !named(#[trigger] dsv[i]) implies slots@[i] == Some(dsv[i]) by {
                assert(before[i] == Some(dsv[i]));
            }
        }
        p = p + 1;
    }
    let ghost named_out = out@;
    let k = out.len();
    let mut q: usize = 0;
    while q < incs.len()
        invariant
            q <= incs@.len(),
            slots@.len() == dsv.len(),
            out@.len() == k + q,
            k == names@.len(),
            out@.take(k as int) == named_out,
            sorted_by(incs@, by_pair(dsv)),
            forall|r: int| 0 <= r < incs@.len() ==> (#[trigger] incs@[r]) < dsv.len() && !named(dsv[incs@[r] as int]),
            forall|r: int| 0 <= r < q ==> #[trigger] out@[k + r] == dsv[incs@[r] as int],
            forall|i: int|
                0 <= i < dsv.len() && !named(#[trigger] dsv[i]) && (forall|r: int|
                    0 <= r < q ==> #[trigger] incs@[r] != i) ==> slots@[i] == Some(dsv[i]),
        decreases incs@.len() - q,
    {
        let c = incs[q];
        proof {
            assert forall|r: int| 0 <= r < q implies #[trigger] incs@[r] != c by {
                assert(by_pair(dsv)(incs@[r], incs@[q as int]) == Order::Less);
                let x = pair_of(dsv[c as int]);
                lemma_name_order(x.0, x.0, x.0);
                lemma_name_order(x.1, x.1, x.1);
            }
            assert(slots@[c as int] == Some(dsv[c as int]));
        }
        let d = take_slot(&mut slots, c).unwrap();
        out.push(d);
        proof {
            assert(out@.take(k as int) =~= named_out);
            assert forall|r: int| 0 <= r < q + 1 implies #[trigger] out@[k + r] == dsv[incs@[r] as int] by {}
        }
        q = q + 1;
    }
    proof {
        lemma_output_split(dsv, names@, incs@, named_out, out@);
    }
    out
}

/// The metadata the bindings are generated from.
#[derive(Clone, Debug, Default, PartialEq, Eq)]
pub struct BindingMetadata {
    pub definitions: Vec<Definition>,
}

impl BindingMetadata {
    /// The snapshot text of the definitions, as a module without
    /// diagnostics.
    pub fn snapshot(&self) -> (r: String)
        ensures
            r@ == module_text(self.definitions@, Seq::empty()),
    {
        let mut output = String::new();
        push_definitions(&mut output, &self.definitions);
        proof {
            assert(output@ =~= module_text(self.definitions@, Seq::empty()));
        }
        output
    }
}

/// How a refusal of `build_binding_metadata` reads: the first definition
/// with a problem is reported; when there is none, an `includes` relation
/// whose target is not an interface, or whose source is not an interface
/// mixin; when there is none either, a partial interface or dictionary
/// without a non-partial definition.
pub open spec fn binding_refusal(ds: Seq<Definition>, message: Seq<char>) -> bool {
    if exists|i: int| 0 <= i < ds.len() && #[trigger] problem_at(ds, i) {
        exists|i: int|
            0 <= i < ds.len() && #[trigger] problem_at(ds, i) && (forall|k: int|
                0 <= k < i ==> !#[trigger] problem_at(ds, k)) && message == problem_message(ds, i)
    } else if exists|i: int|
        0 <= i < ds.len() && !named(#[trigger] ds[i]) && !(defines(ds, pair_of(ds[i]).0, NamedKind::Interface)
            && defines(ds, pair_of(ds[i]).1, NamedKind::Mixin)) {
        exists|i: int|
            0 <= i < ds.len() && !named(#[trigger] ds[i]) && if !defines(ds, pair_of(ds[i]).0, NamedKind::Interface) {
                message == side_message(ds, pair_of(ds[i]).0, "target"@, "interface"@)
            } else {
                !defines(ds, pair_of(ds[i]).1, NamedKind::Mixin) && message == side_message(
                    ds,
                    pair_of(ds[i]).1,
                    "source"@,
                    "interface mixin"@,
                )
            }
    } else {
        exists|i: int|
            0 <= i < ds.len() && named(#[trigger] ds[i]) && mergeable(kind_of(ds[i])) && !has_base(ds, name_of(ds[i]))
                && message == incomplete_message(kind_of(ds[i]), name_of(ds[i]))
    }
}

/// Builds the binding metadata of a module: refused with a `Validation`
/// error exactly when the module does not bind; otherwise the merged
/// definition of every name in name order, then every `includes` relation
/// in relation order.
pub fn build_binding_metadata(module: WebIdlModule) -> (r: Result<BindingMetadata, WebIdlError>)
    ensures
        r is Ok <==> binds(module.definitions@),
        r matches Err(e) ==> e.kind == WebIdlErrorKind::Validation,
        r matches Ok(m) ==> binding_of(module.definitions@, m.definitions@),
        r matches Err(e) ==> binding_refusal(module.definitions@, e.message@),
{
    let ghost dsv = module.definitions@;
    let ds = module.definitions;
    check_definitions(&ds)?;
    let names = sorted_names(&ds);
    let incs = sorted_includes(&ds);
    check_includes(&ds, &incs)?;
    check_complete(&ds, &names)?;
    let out = build_output(ds, &names, &incs);
    let metadata = BindingMetadata { definitions: out };
    proof {
        assert(split_output(dsv, metadata.definitions@, names@.len() as int));
        assert(binding_of(dsv, metadata.definitions@));
    }
    Ok(metadata)
}

/// The definitions with the ones at `i` and `i + 1` exchanged.
pub open spec fn swapped(ds: Seq<Definition>, i: int) -> Seq<Definition> {
    ds.update(i, ds[i + 1]).update(i + 1, ds[i])
}

/// The definitions at `i` and `i + 1` exist and do not share a name.
pub open spec fn may_swap(ds: Seq<Definition>, i: int) -> bool {
    &&& 0 <= i
    &&& i + 1 < ds.len()
    &&& !(named(ds[i]) && named(ds[i + 1]) && name_of(ds[i]) == name_of(ds[i + 1]))
}

/// Where the definition at `k` of the exchanged sequence stood before.
pub open spec fn swap_index(i: int, k: int) -> int {
    if k == i {
        i + 1
    } else if k == i + 1 {
        i
    } else {
        k
    }
}

proof fn lemma_swapped_at(ds: Seq<Definition>, i: int)
    requires
        0 <= i,
        i + 1 < ds.len(),
    ensures
        swapped(ds, i).len() == ds.len(),
        forall|k: int| 0 <= k < ds.len() ==> #[trigger] swapped(ds, i)[k] == ds[swap_index(i, k)],
        forall|k: int| 0 <= k < ds.len() ==> 0 <= #[trigger] swap_index(i, k) < ds.len(),
        forall|k: int| #[trigger] swap_index(i, swap_index(i, k)) == k,
{
}

proof fn lemma_partial_members_swap(ds: Seq<Definition>, i: int, n: Seq<char>)
    requires
        may_swap(ds, i),
    ensures
        partial_interface_members(swapped(ds, i), n) == partial_interface_members(ds, n),
        partial_dictionary_members(swapped(ds, i), n) == partial_dictionary_members(ds, n),
    decreases ds.len(),
{
    let ds2 = swapped(ds, i);
    if ds.len() == i + 2 {
        let p = ds.drop_last().drop_last();
        assert(ds2.drop_last().drop_last() =~= p);
        assert(ds2.drop_last().last() == ds.last());
        assert(ds2.last() == ds.drop_last().last());
        assert(ds.drop_last().last() == ds[i]);
        assert(ds.last() == ds[i + 1]);
        let fi = partial_interface_members(p, n);
        let fd = partial_dictionary_members(p, n);
        assert(partial_interface_members(ds.drop_last(), n) == fi + match ds[i] {
            Definition::Interface(x) => if x.partial && x.name@ == n { x.members@ } else { Seq::empty() },
            _ => Seq::empty(),
        });
        assert(partial_interface_members(ds2.drop_last(), n) == fi + match ds[i + 1] {
            Definition::Interface(x) => if x.partial && x.name@ == n { x.members@ } else { Seq::empty() },
            _ => Seq::empty(),
        });
        assert(partial_dictionary_members(ds.drop_last(), n) == fd + match ds[i] {
            Definition::Dictionary(x) => if x.partial && x.name@ == n { x.members@ } else { Seq::empty() },
            _ => Seq::empty(),
        });
        assert(partial_dictionary_members(ds2.drop_last(), n) == fd + match ds[i + 1] {
            Definition::Dictionary(x) => if x.partial && x.name@ == n { x.members@ } else { Seq::empty() },
            _ => Seq::empty(),
        });
        match ds[i] {
            Definition::Interface(x) => {
                if x.partial && x.name@ == n {
                    match ds[i + 1] {
                        Definition::Interface(y) => {
                            if y.partial && y.name@ == n {
                                assert(name_of(ds[i]) == name_of(ds[i + 1]));
                            }
                        },
                        _ => {},
                    }
                }
            },
            Definition::Dictionary(x) => {
                if x.partial && x.name@ == n {
                    match ds[i + 1] {
                        Definition::Dictionary(y) => {
                            if y.partial && y.name@ == n {
                                assert(name_of(ds[i]) == name_of(ds[i + 1]));
                            }
                        },
                        _ => {},
                    }
                }
            },
            _ => {},
        }
        assert(partial_interface_members(ds2, n) =~= partial_interface_members(ds, n));
        assert(partial_dictionary_members(ds2, n) =~= partial_dictionary_members(ds, n));
    } else {
        assert(ds2.drop_last() =~= swapped(ds.drop_last(), i));
        lemma_partial_members_swap(ds.drop_last(), i, n);
        assert(ds2.last() == ds.last());
        assert(partial_interface_members(ds2, n) == partial_interface_members(ds2.drop_last(), n) + match ds2.last() {
            Definition::Interface(x) => if x.partial && x.name@ == n { x.members@ } else { Seq::empty() },
            _ => Seq::empty(),
        });
        assert(partial_dictionary_members(ds2, n) == partial_dictionary_members(ds2.drop_last(), n) + match ds2.last() {
            Definition::Dictionary(x) => if x.partial && x.name@ == n { x.members@ } else { Seq::empty() },
            _ => Seq::empty(),
        });
    }
}

proof fn lemma_defines_swap(ds: Seq<Definition>, i: int)
    requires
        0 <= i,
        i + 1 < ds.len(),
    ensures
        forall|n: Seq<char>, kind: NamedKind| defines(swapped(ds, i), n, kind) <==> #[trigger] defines(ds, n, kind),
        forall|n: Seq<char>| has_base(swapped(ds, i), n) <==> #[trigger] has_base(ds, n),
{
    let ds2 = swapped(ds, i);
    lemma_swapped_at(ds, i);
    assert forall|n: Seq<char>, kind: NamedKind| defines(ds2, n, kind) <==> #[trigger] defines(ds, n, kind) by {
        if defines(ds, n, kind) {
            let j = choose|j: int| 0 <= j < ds.len() && named(#[trigger] ds[j]) && name_of(ds[j]) == n && kind_of(ds[j]) == kind;
            assert(ds2[swap_index(i, j)] == ds[j]);
        }
        if defines(ds2, n, kind) {
            let j = choose|j: int| 0 <= j < ds2.len() && named(#[trigger] ds2[j]) && name_of(ds2[j]) == n && kind_of(ds2[j]) == kind;
            assert(ds2[j] == ds[swap_index(i, j)]);
        }
    }
    assert forall|n: Seq<char>| has_base(ds2, n) <==> #[trigger] has_base(ds, n) by {
        if has_base(ds, n) {
            let j = choose|j: int| 0 <= j < ds.len() && named(#[trigger] ds[j]) && name_of(ds[j]) == n && !partial_of(ds[j]);
            assert(ds2[swap_index(i, j)] == ds[j]);
        }
        if has_base(ds2, n) {
            let j = choose|j: int| 0 <= j < ds2.len() && named(#[trigger] ds2[j]) && name_of(ds2[j]) == n && !partial_of(ds2[j]);
            assert(ds2[j] == ds[swap_index(i, j)]);
        }
    }
}

proof fn lemma_no_problem_after_swap(ds: Seq<Definition>, i: int, k: int)
    requires
        binds(ds),
        may_swap(ds, i),
        0 <= k < ds.len(),
    ensures
        !problem_at(swapped(ds, i), k),
{
    let ds2 = swapped(ds, i);
    lemma_swapped_at(ds, i);
    let sk = swap_index(i, k);
    let d = ds2[k];
    assert(d == ds[sk]);
    assert(!problem_at(ds, sk));
    if !named(d) {
        if exists|j: int| 0 <= j < k && !named(#[trigger] ds2[j]) && pair_of(ds2[j]) == pair_of(d) {
            let j = choose|j: int| 0 <= j < k && !named(#[trigger] ds2[j]) && pair_of(ds2[j]) == pair_of(d);
            let sj = swap_index(i, j);
            assert(ds2[j] == ds[sj]);
            if sj < sk {
                assert(!named(ds[sj]) && pair_of(ds[sj]) == pair_of(ds[sk]));
                assert(problem_at(ds, sk));
            } else {
                assert(sj != sk);
                assert(!named(ds[sk]) && pair_of(ds[sk]) == pair_of(ds[sj]));
                assert(problem_at(ds, sj));
            }
        }
    } else {
        assert forall|j: int| #[trigger] same_name_before(ds2, k, j) implies same_name_before(ds, sk, swap_index(i, j))
            && ds2[j] == ds[swap_index(i, j)] by {
            assert(ds2[j] == ds[swap_index(i, j)]);
            if j == i && k == i + 1 {
                assert(named(ds[i]) && named(ds[i + 1]) && name_of(ds[i]) == name_of(ds[i + 1]));
            }
        }
        if exists|j: int|
            #[trigger] same_name_before(ds2, k, j) && (kind_of(ds2[j]) != kind_of(d) || !mergeable(kind_of(d))) {
            let j = choose|j: int|
                #[trigger] same_name_before(ds2, k, j) && (kind_of(ds2[j]) != kind_of(d) || !mergeable(kind_of(d)));
            assert(same_name_before(ds, sk, swap_index(i, j)));
        }
        if !partial_of(d) && exists|j: int| #[trigger] same_name_before(ds2, k, j) && !partial_of(ds2[j]) {
            let j = choose|j: int| #[trigger] same_name_before(ds2, k, j) && !partial_of(ds2[j]);
            assert(same_name_before(ds, sk, swap_index(i, j)));
        }
    }
}

/// Exchanging two neighbouring definitions that do not share a name changes
/// nothing: the module binds exactly when the exchanged one does, and with
/// the same binding metadata. Any reordering that keeps the order of the
/// definitions of each name is a chain of such exchanges.
pub proof fn lemma_binding_ignores_order(ds: Seq<Definition>, i: int, out: Seq<Definition>)
    requires
        may_swap(ds, i),
    ensures
        binds(swapped(ds, i)) <==> binds(ds),
        binds(ds) ==> (binding_of(swapped(ds, i), out) <==> binding_of(ds, out)),
{
    let ds2 = swapped(ds, i);
    lemma_swapped_at(ds, i);
    assert(swapped(ds2, i) =~= ds);
    assert(may_swap(ds2, i));
    lemma_binds_one_way(ds, i);
    lemma_binds_one_way(ds2, i);
    if binds(ds) {
        lemma_binding_one_way(ds, i, out);
        lemma_binding_one_way(ds2, i, out);
    }
}

proof fn lemma_binds_one_way(ds: Seq<Definition>, i: int)
    requires
        may_swap(ds, i),
    ensures
        binds(ds) ==> binds(swapped(ds, i)),
{
    let ds2 = swapped(ds, i);
    if binds(ds) {
        lemma_swapped_at(ds, i);
        lemma_defines_swap(ds, i);
        assert forall|k: int| 0 <= k < ds2.len() implies !#[trigger] problem_at(ds2, k) by {
            lemma_no_problem_after_swap(ds, i, k);
        }
        assert forall|k: int| 0 <= k < ds2.len() && !named(#[trigger] ds2[k]) implies defines(
            ds2,
            pair_of(ds2[k]).0,
            NamedKind::Interface,
        ) && defines(ds2, pair_of(ds2[k]).1, NamedKind::Mixin) by {
            assert(ds2[k] == ds[swap_index(i, k)]);
            assert(!named(ds[swap_index(i, k)]));
        }
        assert forall|k: int| 0 <= k < ds2.len() && named(#[trigger] ds2[k]) && mergeable(kind_of(ds2[k])) implies has_base(
            ds2,
            name_of(ds2[k]),
        ) by {
            assert(ds2[k] == ds[swap_index(i, k)]);
            assert(named(ds[swap_index(i, k)]));
        }
    }
}

proof fn lemma_binding_one_way(ds: Seq<Definition>, i: int, out: Seq<Definition>)
    requires
        may_swap(ds, i),
        binds(ds),
    ensures
        binding_of(ds, out) ==> binding_of(swapped(ds, i), out),
{
    let ds2 = swapped(ds, i);
    if binding_of(ds, out) {
        let k = choose|k: int| #[trigger] split_output(ds, out, k);
        lemma_named_part_swap(ds, i, out, k);
        lemma_includes_part_swap(ds, i, out, k);
        assert(split_output(ds2, out, k));
    }
}

proof fn lemma_merged_swap(ds: Seq<Definition>, i: int, d: Definition)
    requires
        may_swap(ds, i),
        merged_from(ds, d),
    ensures
        merged_from(swapped(ds, i), d),
{
    let ds2 = swapped(ds, i);
    lemma_swapped_at(ds, i);
    let b = choose|b: int|
        0 <= b < ds.len() && named(ds[b]) && name_of(ds[b]) == name_of(d) && !partial_of(ds[b])
            && #[trigger] merges(ds, b, d);
    let b2 = swap_index(i, b);
    assert(ds2[b2] == ds[b]);
    lemma_partial_members_swap(ds, i, name_of(ds[b]));
    assert(merges(ds2, b2, d));
}

#[verifier::spinoff_prover]
proof fn lemma_named_part_swap(ds: Seq<Definition>, i: int, out: Seq<Definition>, k: int)
    requires
        may_swap(ds, i),
        named_part(ds, out, k),
    ensures
        named_part(swapped(ds, i), out, k),
{
    let ds2 = swapped(ds, i);
    lemma_swapped_at(ds, i);
    assert forall|p: int| 0 <= p < k implies named(#[trigger] out[p]) && merged_from(ds2, out[p]) by {
        lemma_merged_swap(ds, i, out[p]);
    }
    assert forall|j: int| 0 <= j < ds2.len() && named(#[trigger] ds2[j]) implies exists|p: int|
        0 <= p < k && name_of(out[p]) == name_of(ds2[j]) by {
        assert(ds2[j] == ds[swap_index(i, j)]);
        assert(named(ds[swap_index(i, j)]));
    }
}

proof fn lemma_includes_part_swap(ds: Seq<Definition>, i: int, out: Seq<Definition>, k: int)
    requires
        may_swap(ds, i),
        includes_part(ds, out, k),
    ensures
        includes_part(swapped(ds, i), out, k),
{
    lemma_split_includes(ds, out, k);
    lemma_relations_come_from_swapped(ds, i, out, k);
    lemma_relations_listed_after_swap(ds, i, out, k);
    lemma_join_includes(swapped(ds, i), out, k);
}

/// Every relation after `k` is one of the module's.
#[verifier::opaque]
spec fn relations_from(ds: Seq<Definition>, out: Seq<Definition>, k: int) -> bool {
    forall|q: int|
        k <= q < out.len() ==> !named(#[trigger] out[q]) && exists|j: int|
            0 <= j < ds.len() && !named(#[trigger] ds[j]) && out[q] == ds[j]
}

/// Every relation of the module is listed after `k`.
#[verifier::opaque]
spec fn relations_listed(ds: Seq<Definition>, out: Seq<Definition>, k: int) -> bool {
    forall|j: int| 0 <= j < ds.len() && !named(#[trigger] ds[j]) ==> exists|q: int|
        k <= q < out.len() && out[q] == ds[j]
}

proof fn lemma_split_includes(ds: Seq<Definition>, out: Seq<Definition>, k: int)
    requires
        includes_part(ds, out, k),
    ensures
        relations_from(ds, out, k),
        relations_listed(ds, out, k),
        forall|q: int, r: int|
            k <= q < r < out.len() ==> pair_order(pair_of(#[trigger] out[q]), pair_of(#[trigger] out[r]))
                == Order::Less,
{
    reveal(relations_from);
    reveal(relations_listed);
}

proof fn lemma_join_includes(ds: Seq<Definition>, out: Seq<Definition>, k: int)
    requires
        relations_from(ds, out, k),
        relations_listed(ds, out, k),
        forall|q: int, r: int|
            k <= q < r < out.len() ==> pair_order(pair_of(#[trigger] out[q]), pair_of(#[trigger] out[r]))
                == Order::Less,
    ensures
        includes_part(ds, out, k),
{
    reveal(relations_from);
    reveal(relations_listed);
}

proof fn lemma_relations_come_from_swapped(ds: Seq<Definition>, i: int, out: Seq<Definition>, k: int)
    requires
        may_swap(ds, i),
        relations_from(ds, out, k),
    ensures
        relations_from(swapped(ds, i), out, k),
{
    reveal(relations_from);
    let ds2 = swapped(ds, i);
    lemma_swapped_at(ds, i);
    assert forall|q: int| k <= q < out.len() implies !named(#[trigger] out[q]) && exists|j: int|
        0 <= j < ds2.len() && !named(#[trigger] ds2[j]) && out[q] == ds2[j] by {
        let j = choose|j: int| 0 <= j < ds.len() && !named(#[trigger] ds[j]) && out[q] == ds[j];
        let j2 = swap_index(i, j);
        assert(ds2[j2] == ds[j]);
    }
}

proof fn lemma_relations_listed_after_swap(ds: Seq<Definition>, i: int, out: Seq<Definition>, k: int)
    requires
        may_swap(ds, i),
        relations_listed(ds, out, k),
    ensures
        relations_listed(swapped(ds, i), out, k),
{
    reveal(relations_listed);
    let ds2 = swapped(ds, i);
    lemma_swapped_at(ds, i);
    assert forall|j: int| 0 <= j < ds2.len() && !named(#[trigger] ds2[j]) implies exists|q: int|
        k <= q < out.len() && out[q] == ds2[j] by {
        let j1 = swap_index(i, j);
        assert(ds2[j] == ds[j1]);
        assert(!named(ds[j1]));
    }
}

} // verus!
