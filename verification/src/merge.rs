//! Merging of values (contexts) that parallel branches have produced.
use vstd::prelude::*;
use vstd::std_specs::cmp::PartialEqSpec;

verus! {

/// A merge operation (monoid) over values of the same type.
///
/// `Default` serves as the identity element. `merge` combines `other` into
/// `self`, consuming `other`. Implementations should respect the monoid
/// laws: `Default::default().merge(x)` yields `x`, `x.merge(Default::default())`
/// yields `x`, and `(x.merge(y)).merge(z)` yields the same as
/// `x.merge(y.merge(z))`.
pub trait Merge: Default + Sized {
    /// Whether `result` is what merging `other` into `self` leaves; an
    /// implementation that does not say promises nothing more.
    open spec fn spec_merges(self, other: Self, result: Self) -> bool {
        true
    }

    /// Merge `other` into `self`, consuming `other`.
    fn merge(&mut self, other: Self)
        ensures
            old(self).spec_merges(other, *final(self)),
    ;
}

/// A value that the first branch to set it fixes: merging into a `Fixed`
/// that still holds the default value takes the merged-in value, and
/// merging into one that holds any other value keeps it. With the default
/// as identity this is a monoid: the first non-default value wins.
#[derive(Debug, Clone)]
pub struct Fixed<T> {
    value: T,
}

impl<T> Fixed<T> {
    /// The value held.
    pub closed spec fn spec_value(&self) -> T {
        self.value
    }

    /// Wrap `value`.
    pub fn new(value: T) -> (f: Self)
        ensures
            f.spec_value() == value,
    {
        Self { value }
    }

    /// The value held.
    pub fn get(&self) -> (r: &T)
        ensures
            *r == self.spec_value(),
    {
        &self.value
    }
}

impl<T> core::ops::Deref for Fixed<T> {
    type Target = T;

    fn deref(&self) -> (r: &T)
        ensures
            *r == self.spec_value(),
    {
        &self.value
    }
}

impl<T: Default> Default for Fixed<T> {
    fn default() -> (f: Self)
        ensures
            call_ensures(T::default, (), f.spec_value()),
    {
        Self { value: T::default() }
    }
}

/// Whether `v` is, by `T`'s `==`, the default value `d`.
pub open spec fn is_default_as<T: PartialEq>(v: T, d: T) -> bool {
    v.eq_spec(&d)
}

impl<T: Default + PartialEq> Merge for Fixed<T> {
    /// The result is one of the two values; where `T`'s `==` is what its
    /// spec says, it is `other` exactly when `self` holds a default value
    /// of `T`, and `self` otherwise.
    open spec fn spec_merges(self, other: Self, result: Self) -> bool {
        &&& (result == other || result == self)
        &&& T::obeys_eq_spec() ==> exists|d: T| #[trigger] call_ensures(T::default, (), d)
            && if is_default_as(self.spec_value(), d) { result == other } else { result == self }
    }

    fn merge(&mut self, other: Self) {
        let d = T::default();
        let unset = self.value == d;
        proof {
            assert(T::obeys_eq_spec() ==> unset == is_default_as(self.spec_value(), d));
        }
        if unset {
            *self = other;
        }
    }
}

/// What the laws of `Fixed` rest on: `T`'s `==` is equality, and `T`'s
/// default is one value.
pub open spec fn plain_default<T: Default + PartialEq>() -> bool {
    &&& T::obeys_eq_spec()
    &&& forall|a: T, b: T| #[trigger] a.eq_spec(&b) <==> a == b
    &&& forall|d1: T, d2: T| #[trigger] call_ensures(T::default, (), d1) && #[trigger] call_ensures(T::default, (), d2) ==> d1 == d2
}

/// Left identity: merging `x` into the default yields `x`.
pub proof fn lemma_fixed_left_identity<T: Default + PartialEq>(d: Fixed<T>, x: Fixed<T>, r: Fixed<T>)
    requires
        plain_default::<T>(),
        call_ensures(T::default, (), d.spec_value()),
        d.spec_merges(x, r),
    ensures
        r == x,
{
    let e = choose|e: T| #[trigger] call_ensures(T::default, (), e)
        && if is_default_as(d.spec_value(), e) { r == x } else { r == d };
    assert(e == d.spec_value());
    assert(d.spec_value().eq_spec(&e));
}

/// Right identity: merging the default into `x` yields `x`.
pub proof fn lemma_fixed_right_identity<T: Default + PartialEq>(x: Fixed<T>, d: Fixed<T>, r: Fixed<T>)
    requires
        plain_default::<T>(),
        call_ensures(T::default, (), d.spec_value()),
        x.spec_merges(d, r),
    ensures
        r == x,
{
    let e = choose|e: T| #[trigger] call_ensures(T::default, (), e)
        && if is_default_as(x.spec_value(), e) { r == d } else { r == x };
    assert(e == d.spec_value());
    if x.spec_value().eq_spec(&e) {
        assert(x.spec_value() == d.spec_value());
        assert(x == d);
    }
}

/// Associativity: `(x.merge(y)).merge(z)` equals `x.merge(y.merge(z))`.
pub proof fn lemma_fixed_associative<T: Default + PartialEq>(
    x: Fixed<T>, y: Fixed<T>, z: Fixed<T>, xy: Fixed<T>, xy_z: Fixed<T>, yz: Fixed<T>, x_yz: Fixed<T>,
)
    requires
        plain_default::<T>(),
        x.spec_merges(y, xy),
        xy.spec_merges(z, xy_z),
        y.spec_merges(z, yz),
        x.spec_merges(yz, x_yz),
    ensures
        xy_z == x_yz,
{
    let a = choose|e: T| #[trigger] call_ensures(T::default, (), e)
        && if is_default_as(x.spec_value(), e) { xy == y } else { xy == x };
    let b = choose|e: T| #[trigger] call_ensures(T::default, (), e)
        && if is_default_as(xy.spec_value(), e) { xy_z == z } else { xy_z == xy };
    let c = choose|e: T| #[trigger] call_ensures(T::default, (), e)
        && if is_default_as(y.spec_value(), e) { yz == z } else { yz == y };
    let g = choose|e: T| #[trigger] call_ensures(T::default, (), e)
        && if is_default_as(x.spec_value(), e) { x_yz == yz } else { x_yz == x };
    assert(a == b && b == c && c == g);
    assert(x.spec_value().eq_spec(&a) <==> x.spec_value() == a);
    assert(xy.spec_value().eq_spec(&a) <==> xy.spec_value() == a);
    assert(y.spec_value().eq_spec(&a) <==> y.spec_value() == a);
}

} // verus!
