//! The step registry and the step-set bitset built over it.
//!
//! A [`Registry`] assigns each known step name a stable position in a
//! fixed-size bit space, in registration order. A [`Steps`] value is an
//! immutable bitset over one registry: bit `i` set means "the step at
//! position `i` is included". A step set is only ever interpreted against
//! the registry it was built from, which it keeps a reference to.

use vstd::prelude::*;
use vstd::string::StringExecFns;

verus! {

/// Bit `i` of `b` is set.
pub open spec fn nth_bit(b: u64, i: int) -> bool {
    0 <= i < 64 && ((b >> (i as u64)) & 1u64) == 1u64
}

/// No bit of `b` at position `n` or above is set.
pub open spec fn fits_width(b: u64, n: nat) -> bool {
    forall|i: int| n <= i < 64 ==> !nth_bit(b, i)
}

/// Pairwise-distinct names, at most 64 of them.
pub open spec fn names_wf(names: Seq<Seq<char>>) -> bool {
    &&& names.len() <= 64
    &&& forall|i: int, j: int| 0 <= i < j < names.len() ==> names[i] != names[j]
}

proof fn lemma_zero_bit(i: int)
    ensures
        !nth_bit(0u64, i),
{
    if 0 <= i < 64 {
        let iu = i as u64;
        assert(((0u64 >> iu) & 1u64) != 1u64) by (bit_vector);
    }
}

proof fn lemma_or_bit(b: u64, p: u64, i: int)
    requires
        p < 64,
    ensures
        nth_bit(b | (1u64 << p), i) == (nth_bit(b, i) || i == p as int),
{
    if 0 <= i < 64 {
        let iu = i as u64;
        assert((((b | (1u64 << p)) >> iu) & 1u64) == 1u64 <==> ((((b >> iu) & 1u64) == 1u64)
            || iu == p)) by (bit_vector)
            requires
                p < 64 && iu < 64,
        ;
    }
}

pub(crate) proof fn lemma_and_not_bit(o: u64, s: u64, m: u64, i: int)
    ensures
        nth_bit(o & (!s & m), i) == (nth_bit(o, i) && !nth_bit(s, i) && nth_bit(m, i)),
{
    if 0 <= i < 64 {
        let iu = i as u64;
        assert((((o & (!s & m)) >> iu) & 1u64) == 1u64 <==> ((((o >> iu) & 1u64) == 1u64) && !(((
        s >> iu) & 1u64) == 1u64) && (((m >> iu) & 1u64) == 1u64))) by (bit_vector);
    }
}

proof fn lemma_bits_ext_from(a: u64, b: u64, k: u64)
    requires
        forall|i: int| k <= i < 64 ==> nth_bit(a, i) == nth_bit(b, i),
    ensures
        (a >> k) == (b >> k),
    decreases 64 - k,
{
    if k >= 64 {
        assert((a >> k) == (b >> k)) by (bit_vector)
            requires
                k >= 64,
        ;
    } else {
        let k1: u64 = (k + 1) as u64;
        lemma_bits_ext_from(a, b, k1);
        assert(nth_bit(a, k as int) == nth_bit(b, k as int));
        assert((a >> k) == (b >> k)) by (bit_vector)
            requires
                k < 64,
                k1 == k + 1,
                (a >> k1) == (b >> k1),
                ((((a >> k) & 1u64) == 1u64) == (((b >> k) & 1u64) == 1u64)),
        ;
    }
}

proof fn lemma_bits_ext(a: u64, b: u64)
    requires
        forall|i: int| 0 <= i < 64 ==> nth_bit(a, i) == nth_bit(b, i),
    ensures
        a == b,
{
    lemma_bits_ext_from(a, b, 0);
    assert((a >> 0u64) == a && (b >> 0u64) == b) by (bit_vector);
}

/// The mask with exactly the low `n` bits set.
pub(crate) fn low_mask(n: usize) -> (r: u64)
    requires
        n <= 64,
    ensures
        forall|i: int| nth_bit(r, i) == (0 <= i < n),
{
    if n == 64 {
        let r = u64::MAX;
        proof {
            assert forall|i: int| nth_bit(r, i) == (0 <= i < n) by {
                if 0 <= i < 64 {
                    let iu = i as u64;
                    assert(((u64::MAX >> iu) & 1u64) == 1u64) by (bit_vector)
                        requires
                            iu < 64,
                    ;
                }
            }
        }
        r
    } else {
        let nn: u64 = n as u64;
        proof {
            assert((1u64 << nn) >= 1u64) by (bit_vector)
                requires
                    nn < 64,
            ;
        }
        let r = (1u64 << nn) - 1;
        proof {
            assert forall|i: int| nth_bit(r, i) == (0 <= i < n) by {
                if 0 <= i < 64 {
                    let iu = i as u64;
                    assert((((r >> iu) & 1u64) == 1u64) <==> iu < nn) by (bit_vector)
                        requires
                            nn < 64 && iu < 64 && r == (1u64 << nn) - 1,
                    ;
                }
            }
        }
        r
    }
}

/// A step name that the registry does not know.
#[derive(Debug)]
pub struct StepNotRegistered {
    pub name: String,
}

impl StepNotRegistered {
    /// Human-readable description of the failure, naming the offending step.
    pub fn message(&self) -> (r: String)
        ensures
            r@ == "step \""@ + self.name@ + "\" not registered"@,
    {
        String::from_str("step \"").concat(self.name.as_str()).concat("\" not registered")
    }
}

/// The fixed mapping from step name to bit position for one run.
///
/// Positions are assigned once, in the order steps are registered, and never
/// reassigned. Registering a name a second time is a no-op, so the names stay
/// pairwise distinct. At most 64 names can be registered, so that a step set
/// over the registry fits in one machine word.
#[derive(Debug)]
pub struct Registry {
    names: Vec<String>,
}

impl View for Registry {
    type V = Seq<Seq<char>>;

    closed spec fn view(&self) -> Seq<Seq<char>> {
        self.names.deep_view()
    }
}

impl Registry {
    /// The registered names are pairwise distinct and fit the bit space.
    pub open spec fn wf(&self) -> bool {
        names_wf(self@)
    }

    /// An empty registry, ready to have steps registered.
    pub fn new() -> (r: Registry)
        ensures
            r@.len() == 0,
            r.wf(),
    {
        Registry { names: Vec::new() }
    }

    /// How many steps are registered.
    pub fn size(&self) -> (n: usize)
        ensures
            n == self@.len(),
    {
        self.names.len()
    }

    /// The name at a given position.
    pub fn name_at(&self, i: usize) -> (r: &String)
        requires
            i < self@.len(),
        ensures
            r@ == self@[i as int],
    {
        &self.names[i]
    }

    /// Position of `name`, scanning from the front; `None` if absent.
    fn position_of(&self, name: &String) -> (r: Option<usize>)
        ensures
            match r {
                Some(i) => i < self@.len() && self@[i as int] == name@ && (forall|j: int|
                    0 <= j < i ==> self@[j] != name@),
                None => !self@.contains(name@),
            },
    {
        let n: usize = self.names.len();
        let mut i: usize = 0;
        while i < n
            invariant
                n == self@.len(),
                i <= n,
                forall|j: int| 0 <= j < i ==> self@[j] != name@,
            decreases n - i,
        {
            if self.names[i].eq(name) {
                return Some(i);
            }
            i += 1;
        }
        None
    }

    /// Appends `name` at the next free position; a no-op if it is already
    /// registered, so positions are never reassigned.
    pub fn register(&mut self, name: String)
        requires
            old(self).wf(),
            old(self)@.len() < 64 || old(self)@.contains(name@),
        ensures
            final(self).wf(),
            old(self)@.contains(name@) ==> final(self)@ == old(self)@,
            !old(self)@.contains(name@) ==> final(self)@ == old(self)@.push(name@),
    {
        match self.position_of(&name) {
            Some(i) => {
                proof {
                    assert(self@[i as int] == name@);
                }
            },
            None => {
                self.names.push(name);
                proof {
                    assert(self@ =~= old(self)@.push(name@));
                }
            },
        }
    }

    /// Position of `name`, or the failure that names it if it was never
    /// registered.
    pub fn lookup(&self, name: &String) -> (r: Result<usize, StepNotRegistered>)
        ensures
            r is Ok <==> self@.contains(name@),
            match r {
                Ok(i) => i < self@.len() && self@[i as int] == name@ && (forall|j: int|
                    0 <= j < i ==> self@[j] != name@),
                Err(e) => e.name@ == name@,
            },
    {
        match self.position_of(name) {
            Some(i) => {
                proof {
                    assert(self@[i as int] == name@);
                }
                Ok(i)
            },
            None => Err(StepNotRegistered { name: name.clone() }),
        }
    }
}

/// An immutable inclusion bitset over one registry.
#[derive(Clone, Copy, Debug)]
pub struct Steps<'a> {
    registry: &'a Registry,
    bits: u64,
}

impl<'a> Steps<'a> {
    /// The names of the registry this set was built over.
    pub closed spec fn spec_registry(self) -> Seq<Seq<char>> {
        (*self.registry)@
    }

    /// The raw bit pattern.
    pub closed spec fn spec_bits(self) -> u64 {
        self.bits
    }

    /// Width of the set: one bit per registered step.
    pub open spec fn width(self) -> nat {
        self.spec_registry().len()
    }

    /// The step at position `i` is included.
    pub open spec fn included(self, i: int) -> bool {
        0 <= i < self.width() && nth_bit(self.spec_bits(), i)
    }

    /// The registry names are well-formed and no bit leaks past the width.
    pub open spec fn wf(self) -> bool {
        &&& names_wf(self.spec_registry())
        &&& fits_width(self.spec_bits(), self.width())
    }

    /// The registry this set was built from.
    pub fn registry(&self) -> (r: &'a Registry)
        ensures
            r@ == self.spec_registry(),
    {
        self.registry
    }

    /// The raw bit pattern, for merge arithmetic.
    pub fn bits(&self) -> (b: u64)
        ensures
            b == self.spec_bits(),
    {
        self.bits
    }

    /// The width-`N` bitset of all zeros: no step included.
    pub fn new_all_unset(registry: &'a Registry) -> (r: Steps<'a>)
        requires
            registry.wf(),
        ensures
            r.spec_registry() == registry@,
            r.spec_bits() == 0,
            r.wf(),
            forall|i: int| !r.included(i),
    {
        proof {
            assert forall|i: int| !nth_bit(0u64, i) by {
                lemma_zero_bit(i);
            }
        }
        Steps { registry, bits: 0 }
    }

    /// The width-`N` bitset of all ones: every step included.
    pub fn new_all_set(registry: &'a Registry) -> (r: Steps<'a>)
        requires
            registry.wf(),
        ensures
            r.spec_registry() == registry@,
            r.wf(),
            forall|i: int| r.included(i) == (0 <= i < registry@.len()),
    {
        let n: usize = registry.size();
        let bits = low_mask(n);
        Steps { registry, bits }
    }

    /// Wraps a precomputed bit pattern as a step set against `registry`.
    /// The caller vouches that the pattern fits the registry's width; the
    /// pattern is stored as given.
    pub fn from_bits(registry: &'a Registry, bits: u64) -> (r: Steps<'a>)
        requires
            registry.wf(),
            fits_width(bits, registry@.len()),
        ensures
            r.spec_registry() == registry@,
            r.spec_bits() == bits,
            r.wf(),
    {
        Steps { registry, bits }
    }

    /// Sets the bit of each name in `names`; fails on the first unknown name.
    /// Pure data construction: nothing outside the result is touched, on
    /// success or failure.
    pub fn parse(registry: &'a Registry, names: &Vec<String>) -> (r: Result<
        Steps<'a>,
        StepNotRegistered,
    >)
        requires
            registry.wf(),
        ensures
            r is Ok <==> (forall|k: int|
                0 <= k < names.deep_view().len() ==> registry@.contains(names.deep_view()[k])),
            match r {
                Ok(s) => {
                    &&& s.spec_registry() == registry@
                    &&& s.wf()
                    &&& forall|i: int|
                        0 <= i < registry@.len() ==> (s.included(i) <==> names.deep_view().contains(
                            registry@[i],
                        ))
                    &&& names@.len() == 0 ==> s.spec_bits() == 0
                },
                Err(e) => exists|k: int|
                    {
                        &&& 0 <= k < names.deep_view().len()
                        &&& e.name@ == names.deep_view()[k]
                        &&& !registry@.contains(names.deep_view()[k])
                        &&& forall|j: int| 0 <= j < k ==> registry@.contains(names.deep_view()[j])
                    },
            },
    {
        let mut bits: u64 = 0;
        proof {
            assert forall|i: int| !nth_bit(0u64, i) by {
                lemma_zero_bit(i);
            }
        }
        let n: usize = names.len();
        let mut k: usize = 0;
        while k < n
            invariant
                registry.wf(),
                n == names@.len(),
                k <= n,
                k == 0 ==> bits == 0,
                forall|j: int| 0 <= j < k ==> registry@.contains(names.deep_view()[j]),
                fits_width(bits, registry@.len()),
                forall|i: int|
                    0 <= i < registry@.len() ==> (nth_bit(bits, i) <==> (exists|j: int|
                        0 <= j < k && names.deep_view()[j] == registry@[i])),
            decreases n - k,
        {
            let name = &names[k];
            proof {
                assert(name@ == names.deep_view()[k as int]);
            }
            match registry.lookup(name) {
                Ok(p) => {
                    let pb: u64 = p as u64;
                    let newbits = bits | (1u64 << pb);
                    proof {
                        assert(registry@[p as int] == name@);
                        assert forall|i: int| 0 <= i < registry@.len() implies (nth_bit(newbits, i)
                            <==> (exists|j: int|
                            0 <= j < k + 1 && names.deep_view()[j] == registry@[i])) by {
                            lemma_or_bit(bits, pb, i);
                            if nth_bit(bits, i) {
                                let j = choose|j: int|
                                    0 <= j < k && names.deep_view()[j] == registry@[i];
                                assert(0 <= j < k + 1 && names.deep_view()[j] == registry@[i]);
                            }
                            if i == p as int {
                                assert(0 <= k < k + 1 && names.deep_view()[k as int]
                                    == registry@[i]);
                            }
                            if (exists|j: int|
                                0 <= j < k + 1 && names.deep_view()[j] == registry@[i]) && !(
                            nth_bit(bits, i) || i == p as int) {
                                let j = choose|j: int|
                                    0 <= j < k + 1 && names.deep_view()[j] == registry@[i];
                                if j < k {
                                    assert(nth_bit(bits, i));
                                } else {
                                    assert(registry@[i] == registry@[p as int]);
                                    assert(i == p as int);
                                }
                                assert(false);
                            }
                        }
                        assert forall|i: int| registry@.len() <= i < 64 implies !nth_bit(
                            newbits,
                            i,
                        ) by {
                            lemma_or_bit(bits, pb, i);
                        }
                    }
                    bits = newbits;
                },
                Err(e) => {
                    proof {
                        assert(!registry@.contains(names.deep_view()[k as int]));
                    }
                    return Err(e);
                },
            }
            k += 1;
        }
        let s = Steps { registry, bits };
        proof {
            assert forall|i: int| 0 <= i < registry@.len() implies (s.included(i)
                <==> names.deep_view().contains(registry@[i])) by {
                if names.deep_view().contains(registry@[i]) {
                    let j = choose|j: int|
                        0 <= j < names.deep_view().len() && names.deep_view()[j] == registry@[i];
                    assert(0 <= j < k && names.deep_view()[j] == registry@[i]);
                }
                if (exists|j: int| 0 <= j < k && names.deep_view()[j] == registry@[i]) {
                    let j = choose|j: int| 0 <= j < k && names.deep_view()[j] == registry@[i];
                    assert(0 <= j < names.deep_view().len() && names.deep_view()[j]
                        == registry@[i]);
                }
            }
        }
        Ok(s)
    }

    /// Whether the step called `name` is included; fails if `name` was never
    /// registered.
    pub fn is_set(&self, name: &String) -> (r: Result<bool, StepNotRegistered>)
        requires
            self.wf(),
        ensures
            r is Ok <==> self.spec_registry().contains(name@),
            match r {
                Ok(b) => forall|i: int|
                    0 <= i < self.spec_registry().len() && self.spec_registry()[i] == name@ ==> b
                        == self.included(i),
                Err(e) => e.name@ == name@,
            },
    {
        match self.registry.lookup(name) {
            Ok(i) => {
                let iu: u64 = i as u64;
                let b = ((self.bits >> iu) & 1u64) == 1u64;
                proof {
                    assert(self.spec_registry()[i as int] == name@);
                    assert forall|j: int|
                        0 <= j < self.spec_registry().len() && self.spec_registry()[j]
                            == name@ implies b == self.included(j) by {
                        assert(j == i as int);
                    }
                }
                Ok(b)
            },
            Err(e) => Err(e),
        }
    }
}

/// Two well-formed step sets of the same width that include exactly the same
/// positions carry the same raw bit pattern. In particular, a parse of the
/// empty list matches the all-unset constructor bit for bit, and a parse that
/// covers every registered name matches the all-set constructor.
pub proof fn lemma_same_included_same_bits<'a, 'b>(a: Steps<'a>, b: Steps<'b>)
    requires
        a.wf(),
        b.wf(),
        a.width() == b.width(),
        forall|i: int| 0 <= i < a.width() ==> (a.included(i) <==> b.included(i)),
    ensures
        a.spec_bits() == b.spec_bits(),
{
    assert forall|i: int| 0 <= i < 64 implies nth_bit(a.spec_bits(), i) == nth_bit(
        b.spec_bits(),
        i,
    ) by {
        if i < a.width() {
            assert(a.included(i) == b.included(i));
        } else {
            assert(!nth_bit(a.spec_bits(), i));
            assert(!nth_bit(b.spec_bits(), i));
        }
    }
    lemma_bits_ext(a.spec_bits(), b.spec_bits());
}

} // verus!
