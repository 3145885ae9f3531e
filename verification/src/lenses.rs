//! Lenses: a field's getter and setter held together as a value, composed
//! to reach nested fields, with the laws that make them behave as fields.
use vstd::prelude::*;

verus! {

/// A getter and a setter for one part `A` of a whole `S`.
pub struct Lens<G, U> {
    pub get: G,
    pub set: U,
}

impl<G, U> Lens<G, U> {
    /// The part that `get` reads from `s`.
    pub fn view<S, A>(&self, s: &S) -> (a: A)
        where
            G: Fn(&S) -> A,
        requires
            self.get.requires((s,)),
        ensures
            self.get.ensures((s,), a),
    {
        (self.get)(s)
    }

    /// `s` with the part replaced by `a`.
    pub fn update<S, A>(&self, s: S, a: A) -> (r: S)
        where
            U: Fn(S, A) -> S,
        requires
            self.set.requires((s, a)),
        ensures
            self.set.ensures((s, a), r),
    {
        (self.set)(s, a)
    }

    /// `s` with the part replaced by `f` of the part.
    pub fn modify<S, A, F>(&self, s: S, f: F) -> (r: S)
        where
            G: Fn(&S) -> A,
            U: Fn(S, A) -> S,
            F: FnOnce(A) -> A,
        requires
            self.get.requires((&s,)),
            forall|a: A| #[trigger] self.get.ensures((&s,), a) ==> f.requires((a,)),
            forall|a: A, b: A| #[trigger] self.get.ensures((&s,), a) && #[trigger] f.ensures((a,), b)
                ==> self.set.requires((s, b)),
        ensures
            exists|a: A, b: A| #[trigger] self.get.ensures((&s,), a) && #[trigger] f.ensures((a,), b)
                && self.set.ensures((s, b), r),
    {
        let a = (self.get)(&s);
        let ghost a0 = a;
        let b = f(a);
        assert(f.ensures((a0,), b));
        self.update(s, b)
    }
}

/// The lens laws for a getter and setter given as functions:
/// reading back what was set gives it (get-put), setting what was read
/// changes nothing (put-get), and a second set overrides the first (put-put).
pub open spec fn lawful<S, A>(get: spec_fn(S) -> A, set: spec_fn(S, A) -> S) -> bool {
    &&& forall|s: S, a: A| #[trigger] get(set(s, a)) == a
    &&& forall|s: S| #[trigger] set(s, get(s)) == s
    &&& forall|s: S, a: A, b: A| #[trigger] set(set(s, a), b) == set(s, b)
}

/// The getter of a lens focused through `get1` and then `get2`.
pub open spec fn composed_get<S, A, B>(get1: spec_fn(S) -> A, get2: spec_fn(A) -> B) -> spec_fn(S) -> B {
    |s: S| get2(get1(s))
}

/// The setter of that lens: set the inner part of the outer part.
pub open spec fn composed_set<S, A, B>(get1: spec_fn(S) -> A, set1: spec_fn(S, A) -> S, set2: spec_fn(A, B) -> A) -> spec_fn(S, B) -> S {
    |s: S, b: B| set1(s, set2(get1(s), b))
}

/// Two lawful lenses compose into a lawful lens.
pub proof fn law_compose_lawful<S, A, B>(
    get1: spec_fn(S) -> A,
    set1: spec_fn(S, A) -> S,
    get2: spec_fn(A) -> B,
    set2: spec_fn(A, B) -> A,
)
    requires
        lawful(get1, set1),
        lawful(get2, set2),
    ensures
        lawful(composed_get(get1, get2), composed_set(get1, set1, set2)),
{
    let g = composed_get(get1, get2);
    let st = composed_set(get1, set1, set2);
    assert forall|s: S, b: B| #[trigger] g(st(s, b)) == b by {
        assert(get1(set1(s, set2(get1(s), b))) == set2(get1(s), b));
        assert(get2(set2(get1(s), b)) == b);
    }
    assert forall|s: S| #[trigger] st(s, g(s)) == s by {
        assert(set2(get1(s), get2(get1(s))) == get1(s));
        assert(set1(s, get1(s)) == s);
    }
    assert forall|s: S, b: B, c: B| #[trigger] st(st(s, b), c) == st(s, c) by {
        let x = set2(get1(s), b);
        assert(get1(set1(s, x)) == x);
        assert(set1(set1(s, x), set2(x, c)) == set1(s, set2(x, c)));
        assert(set2(set2(get1(s), b), c) == set2(get1(s), c));
    }
}

// ─── Sample data ───────────────────────────────────────────────────────

#[derive(Debug, Clone, PartialEq)]
pub struct Address {
    pub city: String,
    pub zip: String,
}

#[derive(Debug, Clone, PartialEq)]
pub struct Person {
    pub name: String,
    pub age: u32,
    pub address: Address,
}

pub open spec fn address_of(p: Person) -> Address {
    p.address
}

pub open spec fn with_address(p: Person, a: Address) -> Person {
    Person { name: p.name, age: p.age, address: a }
}

pub open spec fn age_of(p: Person) -> u32 {
    p.age
}

pub open spec fn with_age(p: Person, age: u32) -> Person {
    Person { name: p.name, age, address: p.address }
}

pub open spec fn city_of(a: Address) -> String {
    a.city
}

pub open spec fn with_city(a: Address, city: String) -> Address {
    Address { city, zip: a.zip }
}

/// The address, age and city lenses obey the lens laws, and so does the
/// person-to-city lens composed from two of them.
pub proof fn law_sample_lenses_lawful()
    ensures
        lawful(|p: Person| address_of(p), |p: Person, a: Address| with_address(p, a)),
        lawful(|p: Person| age_of(p), |p: Person, n: u32| with_age(p, n)),
        lawful(|a: Address| city_of(a), |a: Address, c: String| with_city(a, c)),
        lawful(
            composed_get(|p: Person| address_of(p), |a: Address| city_of(a)),
            composed_set(|p: Person| address_of(p), |p: Person, a: Address| with_address(p, a), |a: Address, c: String| with_city(a, c)),
        ),
{
    law_compose_lawful(
        |p: Person| address_of(p),
        |p: Person, a: Address| with_address(p, a),
        |a: Address| city_of(a),
        |a: Address, c: String| with_city(a, c),
    );
}

/// The lens on a person's address.
pub fn person_address_lens() -> (l: Lens<impl Fn(&Person) -> Address, impl Fn(Person, Address) -> Person>)
    ensures
        forall|p: &Person| #[trigger] l.get.requires((p,)),
        forall|p: &Person, a: Address| #[trigger] l.get.ensures((p,), a) ==> a == address_of(*p),
        forall|p: Person, a: Address| #[trigger] l.set.requires((p, a)),
        forall|p: Person, a: Address, r: Person| #[trigger] l.set.ensures((p, a), r) ==> r == with_address(p, a),
{
    let get = |p: &Person| -> (a: Address)
        ensures
            a == address_of(*p),
    {
        Address { city: p.address.city.clone(), zip: p.address.zip.clone() }
    };
    let set = |p: Person, a: Address| -> (r: Person)
        ensures
            r == with_address(p, a),
    {
        Person { name: p.name, age: p.age, address: a }
    };
    Lens { get, set }
}

/// The lens on a person's age.
pub fn person_age_lens() -> (l: Lens<impl Fn(&Person) -> u32, impl Fn(Person, u32) -> Person>)
    ensures
        forall|p: &Person| #[trigger] l.get.requires((p,)),
        forall|p: &Person, n: u32| #[trigger] l.get.ensures((p,), n) ==> n == age_of(*p),
        forall|p: Person, n: u32| #[trigger] l.set.requires((p, n)),
        forall|p: Person, n: u32, r: Person| #[trigger] l.set.ensures((p, n), r) ==> r == with_age(p, n),
{
    let get = |p: &Person| -> (n: u32)
        ensures
            n == age_of(*p),
    {
        p.age
    };
    let set = |p: Person, n: u32| -> (r: Person)
        ensures
            r == with_age(p, n),
    {
        Person { name: p.name, age: n, address: p.address }
    };
    Lens { get, set }
}

/// The lens on an address's city.
pub fn address_city_lens() -> (l: Lens<impl Fn(&Address) -> String, impl Fn(Address, String) -> Address>)
    ensures
        forall|a: &Address| #[trigger] l.get.requires((a,)),
        forall|a: &Address, c: String| #[trigger] l.get.ensures((a,), c) ==> c == city_of(*a),
        forall|a: Address, c: String| #[trigger] l.set.requires((a, c)),
        forall|a: Address, c: String, r: Address| #[trigger] l.set.ensures((a, c), r) ==> r == with_city(a, c),
{
    let get = |a: &Address| -> (c: String)
        ensures
            c == city_of(*a),
    {
        a.city.clone()
    };
    let set = |a: Address, c: String| -> (r: Address)
        ensures
            r == with_city(a, c),
    {
        Address { city: c, zip: a.zip }
    };
    Lens { get, set }
}

/// The getter of `outer` followed by the getter of `inner`.
pub fn compose<'a, S, A, B, G1, U1, G2, U2>(outer: &'a Lens<G1, U1>, inner: &'a Lens<G2, U2>) -> (h: impl Fn(&S) -> B + 'a)
    where
        G1: Fn(&S) -> A,
        G2: Fn(&A) -> B,
    ensures
        forall|s: &S| outer.get.requires((s,))
            && (forall|a: A| #[trigger] outer.get.ensures((s,), a) ==> inner.get.requires((&a,)))
            ==> #[trigger] h.requires((s,)),
        forall|s: &S, b: B| #[trigger] h.ensures((s,), b)
            ==> exists|a: A| #[trigger] outer.get.ensures((s,), a) && inner.get.ensures((&a,), b),
{
    move |s: &S| -> (b: B)
        requires
            outer.get.requires((s,)),
            forall|a: A| #[trigger] outer.get.ensures((s,), a) ==> inner.get.requires((&a,)),
        ensures
            exists|a: A| #[trigger] outer.get.ensures((s,), a) && inner.get.ensures((&a,), b),
    {
        let a = outer.view(s);
        inner.view(&a)
    }
}

/// `s` with the `inner` part of its `outer` part replaced by `b`.
pub fn compose_update<S, A, B, G1, U1, G2, U2>(outer: &Lens<G1, U1>, inner: &Lens<G2, U2>, s: S, b: B) -> (r: S)
    where
        G1: Fn(&S) -> A,
        U1: Fn(S, A) -> S,
        U2: Fn(A, B) -> A,
    requires
        outer.get.requires((&s,)),
        forall|a: A| #[trigger] outer.get.ensures((&s,), a) ==> inner.set.requires((a, b)),
        forall|a: A, na: A| #[trigger] outer.get.ensures((&s,), a) && #[trigger] inner.set.ensures((a, b), na)
            ==> outer.set.requires((s, na)),
    ensures
        exists|a: A, na: A| #[trigger] outer.get.ensures((&s,), a) && #[trigger] inner.set.ensures((a, b), na)
            && outer.set.ensures((s, na), r),
{
    let a = outer.view(&s);
    let ghost a0 = a;
    let new_a = inner.update(a, b);
    assert(inner.set.ensures((a0, b), new_a));
    outer.update(s, new_a)
}

// ─── A prism: a part present in one variant only ───────────────────────

/// A circle or a rectangle, measured in `N`.
#[derive(Debug, Clone)]
pub enum Shape<N> {
    Circle { radius: N },
    Rectangle { width: N, height: N },
}

/// The radius, when the shape is a circle.
pub open spec fn preview<N>(shape: Shape<N>) -> Option<N> {
    match shape {
        Shape::Circle { radius } => Some(radius),
        _ => None,
    }
}

/// The shape with `g` applied to its radius; any other shape unchanged.
pub open spec fn over<N>(shape: Shape<N>, g: spec_fn(N) -> N) -> Shape<N> {
    match shape {
        Shape::Circle { radius } => Shape::Circle { radius: g(radius) },
        other => other,
    }
}

/// Prism laws: previewing an updated shape gives the updated radius, and
/// updating a shape that has no radius leaves it as it was.
pub proof fn law_prism_over_preview<N>(shape: Shape<N>, g: spec_fn(N) -> N)
    ensures
        preview(over(shape, g)) == (match preview(shape) {
            Some(r) => Some(g(r)),
            None => None::<N>,
        }),
        preview(shape) is None ==> over(shape, g) == shape,
{
}

/// The radius of a circle, `None` for any other shape.
pub fn circle_radius<N: Copy>(shape: &Shape<N>) -> (r: Option<N>)
    ensures
        r == preview(*shape),
{
    match shape {
        Shape::Circle { radius } => Some(*radius),
        _ => None,
    }
}

/// A circle with `f` applied to its radius; any other shape is returned as it was.
pub fn update_circle_radius<N, F: FnOnce(N) -> N>(shape: Shape<N>, f: F) -> (r: Shape<N>)
    requires
        shape matches Shape::Circle { radius } ==> f.requires((radius,)),
    ensures
        match shape {
            Shape::Circle { radius } => r matches Shape::Circle { radius: nr } && f.ensures((radius,), nr),
            _ => r == shape,
        },
{
    match shape {
        Shape::Circle { radius } => Shape::Circle { radius: f(radius) },
        other => other,
    }
}

} // verus!
