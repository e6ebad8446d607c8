//! Proof that a ballot belongs to one of a small public set of residue
//! classes, e.g. RC[0] or RC[1], without revealing which: a cut-and-choose
//! protocol made non-interactive with Fiat-Shamir. The commitment is a list
//! of capsules, each holding one fresh residue per allowed class in shuffled
//! order; the hash of the commitment selects, per round, whether the capsule
//! is opened entirely or consumed against the statement.
use vstd::calc;
use vstd::prelude::*;

use crate::arithmetics::{ClearResidue, OpaqueResidue, ResidueClass, RingModulus};
use crate::bignum::Num;
use crate::keys::PublicKey;
use crate::modmath::{mul_mod, pow_mod};
use vstd::arithmetic::power::pow;
use rand::seq::SliceRandom;

verus! {

/// The choice of SHA3-256 fixes the number of rounds at 256.
pub const CONFIDENCE: usize = 256;

/// The two-element list of residue classes RC[1], RC[0], used by a simple
/// yes/no election.
pub fn zero_or_one(modulus: &RingModulus) -> (r: Vec<ResidueClass>)
    requires
        modulus.wf(),
    ensures
        r@.len() == 2,
        r@[0].wf() && r@[0].val() == 1 && r@[0].modulus == modulus.modulus,
        r@[1].wf() && r@[1].val() == 0 && r@[1].modulus == modulus.modulus,
{
    let one = ResidueClass::one(modulus);
    let zero = ResidueClass::zero(modulus);
    let mut out: Vec<ResidueClass> = Vec::new();
    out.push(one);
    out.push(zero);
    out
}

/// Some element of the sequence carries residue class `c`.
pub open spec fn covers(elements: Seq<ClearResidue>, c: nat) -> bool {
    exists|j: int| 0 <= j < elements.len() && (#[trigger] elements[j]).rc.val() == c
}

/// A committed capsule: the opaque values of its elements, in order.
pub struct OpaqueCapsule {
    pub elements: Vec<OpaqueResidue>,
}

impl OpaqueCapsule {
    /// Every element lives in the group `Z/n*`.
    pub open spec fn wf(&self, pk: PublicKey) -> bool {
        forall|i: int|
            0 <= i < self.elements@.len() ==> (#[trigger] self.elements@[i]).wf()
                && self.elements@[i].m() == pk.group()
    }

    pub fn new(elements: Vec<OpaqueResidue>) -> (r: Self)
        ensures
            r.elements == elements,
    {
        OpaqueCapsule { elements }
    }

    pub fn get_elements(&self) -> (r: &Vec<OpaqueResidue>)
        ensures
            r == self.elements,
    {
        &self.elements
    }
}

/// An opened capsule: every element together with its decomposition.
pub struct ClearCapsule {
    pub elements: Vec<ClearResidue>,
}

/// Relies on `SliceRandom::shuffle` of the `rand` crate: a uniformly random
/// permutation of the slice; the multiset of elements is unchanged.
#[verifier::external_body]
fn shuffle_residues(v: &mut Vec<ClearResidue>)
    ensures
        final(v)@.len() == old(v)@.len(),
        final(v)@.to_multiset() == old(v)@.to_multiset(),
{
    v.as_mut_slice().shuffle(&mut rand::rngs::OsRng);
}

impl ClearCapsule {
    /// Every element is a well-formed clear residue over `pk`.
    pub open spec fn wf(&self, pk: PublicKey) -> bool {
        forall|i: int|
            0 <= i < self.elements@.len() ==> (#[trigger] self.elements@[i]).wf()
                && self.elements@[i].ambience == pk
    }

    pub fn new(elements: Vec<ClearResidue>) -> (r: Self)
        ensures
            r.elements == elements,
    {
        ClearCapsule { elements }
    }

    pub fn get_elements(&self) -> (r: &Vec<ClearResidue>)
        ensures
            r == self.elements,
    {
        &self.elements
    }

    /// Copy the capsule element by element.
    pub fn duplicate(&self) -> (r: ClearCapsule)
        ensures
            r.elements@ == self.elements@,
    {
        let mut out: Vec<ClearResidue> = Vec::new();
        let mut i: usize = 0;
        #[verifier::loop_isolation(false)]
        while i < self.elements.len()
            invariant
                i <= self.elements@.len(),
                out@ == self.elements@.take(i as int),
            decreases self.elements@.len() - i,
        {
            out.push(self.elements[i]);
            proof {
                assert(out@ =~= self.elements@.take(i + 1));
            }
            i = i + 1;
        }
        proof {
            assert(out@ =~= self.elements@);
        }
        ClearCapsule { elements: out }
    }

    /// Generate a capsule holding one fresh random residue per listed class,
    /// then shuffle so the order leaks nothing about class assignment.
    pub fn generate(classes: &Vec<ResidueClass>, pk: &PublicKey) -> (r: Self)
        requires
            pk.wf(),
            forall|i: int|
                0 <= i < classes@.len() ==> (#[trigger] classes@[i]).wf() && classes@[i].m()
                    == pk.ring(),
        ensures
            r.wf(*pk),
            r.elements@.len() == classes@.len(),
            forall|k: int| 0 <= k < r.elements@.len() ==> (#[trigger] r.elements@[k]).exact(),
            forall|i: int|
                0 <= i < classes@.len() ==> covers(r.elements@, (#[trigger] classes@[i]).val()),
            class_seq(r.elements@).to_multiset() == class_vals(classes@).to_multiset(),
    {
        let mut elements: Vec<ClearResidue> = Vec::new();
        let mut i: usize = 0;
        #[verifier::loop_isolation(false)]
        while i < classes.len()
            invariant
                i <= classes@.len(),
                elements@.len() == i,
                forall|k: int|
                    0 <= k < i ==> (#[trigger] elements@[k]).wf() && elements@[k].ambience == *pk
                        && elements@[k].exact() && elements@[k].rc.val() == classes@[k].val(),
            decreases classes@.len() - i,
        {
            let class = classes[i].clone_residue();
            elements.push(ClearResidue::random(Some(class), pk));
            i = i + 1;
        }
        let ghost before = elements@;
        shuffle_residues(&mut elements);
        proof {
            lemma_multiset_keeps_wf(elements@, before, *pk);
            assert forall|i2: int| 0 <= i2 < classes@.len() implies covers(
                elements@,
                (#[trigger] classes@[i2]).val(),
            ) by {
                assert(before.contains(before[i2]));
                lemma_multiset_keeps_member(elements@, before, before[i2]);
                let j = choose|j: int| 0 <= j < elements@.len() && elements@[j] == before[i2];
                assert(elements@[j].rc.val() == classes@[i2].val());
            }
            assert(class_seq(before) =~= class_vals(classes@));
            lemma_class_multiset_permutes(elements@, before);
        }
        ClearCapsule { elements }
    }

    /// Forget the decompositions, keeping the committed opaque values.
    pub fn obscure(&self) -> (r: OpaqueCapsule)
        ensures
            r.elements@.len() == self.elements@.len(),
            forall|i: int|
                0 <= i < self.elements@.len() ==> r.elements@[i] == (
                #[trigger] self.elements@[i]).val,
    {
        let mut elements: Vec<OpaqueResidue> = Vec::new();
        let mut i: usize = 0;
        #[verifier::loop_isolation(false)]
        while i < self.elements.len()
            invariant
                i <= self.elements@.len(),
                elements@.len() == i,
                forall|k: int|
                    0 <= k < i ==> elements@[k] == (#[trigger] self.elements@[k]).val,
            decreases self.elements@.len() - i,
        {
            elements.push(self.elements[i].clone_val());
            i = i + 1;
        }
        OpaqueCapsule { elements }
    }

    /// Consume the capsule against the statement: find the element sharing
    /// the statement's class and reveal the ratio of their witnesses, an
    /// exact residue demonstrating the shared class. `None` when no element
    /// matches, which signals a statement whose class is outside the allowed
    /// set.
    pub fn consume(&self, statement: &ClearResidue, pk: &PublicKey) -> (r: Option<ClearResidue>)
        requires
            pk.wf(),
            self.wf(*pk),
            statement.wf(),
            statement.ambience == *pk,
        ensures
            r matches Some(c) ==> c.wf() && c.ambience == *pk && c.rc.val() == 0 && c.exact()
                && c.val.val() == crate::arithmetics::compose_val(*pk, 0, c.witness.val()),
            r matches Some(c) ==> exists|k: int|
                0 <= k < self.elements@.len() && (#[trigger] self.elements@[k]).rc.val()
                    == statement.rc.val() && c.witness.val() == mul_mod(
                    self.elements@[k].witness.val(),
                    crate::modmath::inv_of(statement.witness.val(), pk.group()),
                    pk.group(),
                ),
            r.is_none() ==> forall|i: int|
                0 <= i < self.elements@.len() ==> (#[trigger] self.elements@[i]).rc.val()
                    != statement.rc.val(),
            (statement.exact() && all_exact(*self)) ==> (r matches Some(c) ==> exists|k: int|
                0 <= k < self.elements@.len() && mul_mod(
                    statement.val.val(),
                    c.val.val(),
                    pk.group(),
                ) == (#[trigger] self.elements@[k]).val.val()),
    {
        let mut i: usize = 0;
        #[verifier::loop_isolation(false)]
        while i < self.elements.len()
            invariant
                i <= self.elements@.len(),
                forall|k: int|
                    0 <= k < i ==> (#[trigger] self.elements@[k]).rc.val() != statement.rc.val(),
            decreases self.elements@.len() - i,
        {
            let element = &self.elements[i];
            if element.get_rc().equals(statement.get_rc()) {
                // the statement's witness cannot be inverted without the
                // secret key, so the response is computed from the clear
                // decomposition
                let inv = statement.get_witness().invert();
                let ratio = element.get_witness().mul(&inv);
                proof {
                    crate::modmath::lemma_invertible_mul(
                        element.witness.val(),
                        inv.val(),
                        pk.group(),
                    );
                }
                let out = ClearResidue::compose(Num::zero(), ratio.residue, pk);
                proof {
                    assert((#[trigger] self.elements@[i as int]).rc.val() == statement.rc.val()
                        && out.witness.val() == mul_mod(
                        self.elements@[i as int].witness.val(),
                        crate::modmath::inv_of(statement.witness.val(), pk.group()),
                        pk.group(),
                    ));
                    if statement.exact() && all_exact(*self) {
                        assert(self.elements@[i as int].exact());
                        lemma_consume_completeness(
                            *pk,
                            statement.rc.val(),
                            statement.witness.val(),
                            element.witness.val(),
                        );
                        assert(mul_mod(statement.val.val(), out.val.val(), pk.group())
                            == self.elements@[i as int].val.val());
                    }
                }
                return Some(out);
            }
            i = i + 1;
        }
        None
    }
}

/// Shuffling keeps every element well-formed and exactly decomposed:
/// membership in the multiset pulls each element back to a position in the
/// sequence before the shuffle.
proof fn lemma_multiset_keeps_wf(s: Seq<ClearResidue>, t: Seq<ClearResidue>, pk: PublicKey)
    requires
        t.to_multiset() == s.to_multiset(),
        forall|i: int|
            0 <= i < t.len() ==> (#[trigger] t[i]).wf() && t[i].ambience == pk && t[i].exact(),
    ensures
        forall|i: int|
            0 <= i < s.len() ==> (#[trigger] s[i]).wf() && s[i].ambience == pk && s[i].exact(),
{
    assert forall|i: int| 0 <= i < s.len() implies (#[trigger] s[i]).wf() && s[i].ambience == pk
        && s[i].exact() by {
        s.to_multiset_ensures();
        t.to_multiset_ensures();
        assert(s.to_multiset().contains(s[i]));
        assert(t.to_multiset().contains(s[i]));
        assert(t.contains(s[i]));
        let k = choose|k: int| 0 <= k < t.len() && t[k] == s[i];
        assert(t[k].wf());
    }
}

/// The residue classes of a sequence of clear residues, element by element.
pub open spec fn class_seq(s: Seq<ClearResidue>) -> Seq<nat> {
    s.map_values(|e: ClearResidue| e.rc.val())
}

/// The values of a list of residue classes, element by element.
pub open spec fn class_vals(s: Seq<ResidueClass>) -> Seq<nat> {
    s.map_values(|c: ResidueClass| c.val())
}

/// A permutation of residues permutes their classes: multiset-equal
/// sequences have multiset-equal class sequences.
proof fn lemma_class_multiset_permutes(s: Seq<ClearResidue>, t: Seq<ClearResidue>)
    requires
        s.to_multiset() == t.to_multiset(),
    ensures
        class_seq(s).to_multiset() == class_seq(t).to_multiset(),
    decreases s.len(),
{
    s.to_multiset_ensures();
    t.to_multiset_ensures();
    vstd::seq_lib::to_multiset_len(s);
    vstd::seq_lib::to_multiset_len(t);
    if s.len() == 0 {
        assert(class_seq(s) =~= Seq::<nat>::empty());
        assert(class_seq(t) =~= Seq::<nat>::empty());
    } else {
        let x = s.last();
        let xc = x.rc.val();
        let s2 = s.drop_last();
        assert(s =~= s2.push(x));
        vstd::seq_lib::to_multiset_build(s2, x);
        assert(s.contains(x));
        assert(t.to_multiset().contains(x));
        assert(t.contains(x));
        let i = choose|i: int| 0 <= i < t.len() && t[i] == x;
        let t2 = t.remove(i);
        vstd::seq_lib::to_multiset_remove(t, i);
        assert(s2.to_multiset() =~= t2.to_multiset());
        lemma_class_multiset_permutes(s2, t2);
        assert(class_seq(s) =~= class_seq(s2).push(xc));
        vstd::seq_lib::to_multiset_build(class_seq(s2), xc);
        assert(class_seq(t2) =~= class_seq(t).remove(i));
        vstd::seq_lib::to_multiset_remove(class_seq(t), i);
        assert(class_seq(t)[i] == xc);
        assert(class_seq(t).contains(xc));
        class_seq(t).to_multiset_ensures();
        assert(class_seq(t).to_multiset().contains(xc));
        assert(class_seq(s).to_multiset() =~= class_seq(t).to_multiset());
    }
}

/// A shuffle keeps every member: whatever occurred before the shuffle still
/// occurs afterwards.
proof fn lemma_multiset_keeps_member(s: Seq<ClearResidue>, t: Seq<ClearResidue>, x: ClearResidue)
    requires
        t.to_multiset() == s.to_multiset(),
        t.contains(x),
    ensures
        s.contains(x),
{
    s.to_multiset_ensures();
    t.to_multiset_ensures();
    assert(t.to_multiset().contains(x));
    assert(s.to_multiset().contains(x));
}

/// Completeness of capsule consumption, algebraic half: when a capsule
/// element and the statement carry exact decompositions in one and the same
/// class, multiplying the statement's value by the composed witness ratio
/// `(element.witness / statement.witness)^r` reproduces the element's value
/// exactly, so the consume check accepts an honest response.
pub proof fn lemma_consume_completeness(pk: PublicKey, c: nat, ws: nat, we: nat)
    requires
        pk.wf(),
        ws < pk.group(),
        we < pk.group(),
        crate::modmath::invertible(ws, pk.group()),
        crate::modmath::invertible(we, pk.group()),
    ensures
        mul_mod(
            crate::arithmetics::compose_val(pk, c, ws),
            crate::arithmetics::compose_val(
                pk,
                0,
                mul_mod(we, crate::modmath::inv_of(ws, pk.group()), pk.group()),
            ),
            pk.group(),
        ) == crate::arithmetics::compose_val(pk, c, we),
{
    let n = pk.group();
    let ni = n as int;
    let rv = pk.ring();
    let y = pk.yval();
    let wsi = crate::modmath::inv_of(ws, n);
    assert((ws * wsi) % n == 1) by {
        let w = choose|w: nat| w < n && #[trigger] ((ws * w) % n) == 1;
        crate::modmath::lemma_inv_unique(ws, n, w);
    }
    crate::modmath::lemma_pow_powers_multiply_to_one(ws, wsi, rv, n);
    crate::modmath::lemma_pow_mod_bounds(y, c, n);
    crate::modmath::lemma_pow_mod_bounds(ws, rv, n);
    crate::modmath::lemma_pow_mod_bounds(we, rv, n);
    crate::modmath::lemma_pow_mod_bounds(wsi, rv, n);
    let ratio = mul_mod(we, wsi, n);
    // the consumed response's value is the ratio's r-th power
    crate::modmath::lemma_pow_mod_zero_exp(y, n);
    crate::modmath::lemma_pow_mod_bounds(ratio, rv, n);
    assert(crate::arithmetics::compose_val(pk, 0, ratio) == pow_mod(ratio, rv, n)) by {
        vstd::arithmetic::div_mod::lemma_small_mod(pow_mod(ratio, rv, n), n);
    }
    // the ratio's r-th power splits into the two witnesses' powers
    assert(pow_mod(ratio, rv, n) as int == (pow(we as int, rv) * pow(wsi as int, rv)) % ni) by {
        crate::arithmetics::lemma_pow_of_mod_product(we as int, wsi as int, rv, n);
        vstd::arithmetic::div_mod::lemma_mod_bound(we as int, ni);
        vstd::arithmetic::div_mod::lemma_small_mod(we, n) ;
    }
    calc! {
        (==)
        (mul_mod(crate::arithmetics::compose_val(pk, c, ws), pow_mod(ratio, rv, n), n)) as int; (==) {
            vstd::arithmetic::div_mod::lemma_mul_mod_noop_general(
                (pow(y as int, c) % ni) * (pow(ws as int, rv) % ni),
                pow(we as int, rv) * pow(wsi as int, rv),
                ni,
            );
        }
        (((pow(y as int, c) % ni) * (pow(ws as int, rv) % ni)) * (pow(we as int, rv) * pow(
            wsi as int,
            rv,
        ))) % ni; (==) {
            vstd::arithmetic::div_mod::lemma_mul_mod_noop_left(
                pow(y as int, c),
                (pow(ws as int, rv) % ni) * (pow(we as int, rv) * pow(wsi as int, rv)),
                ni,
            );
            assert(((pow(y as int, c) % ni) * (pow(ws as int, rv) % ni)) * (pow(we as int, rv)
                * pow(wsi as int, rv)) == (pow(y as int, c) % ni) * ((pow(ws as int, rv) % ni)
                * (pow(we as int, rv) * pow(wsi as int, rv)))) by (nonlinear_arith);
            assert(pow(y as int, c) * ((pow(ws as int, rv) % ni) * (pow(we as int, rv) * pow(
                wsi as int,
                rv,
            ))) == (pow(y as int, c) * pow(we as int, rv)) * ((pow(ws as int, rv) % ni) * pow(
                wsi as int,
                rv,
            ))) by (nonlinear_arith);
        }
        ((pow(y as int, c) * pow(we as int, rv)) * ((pow(ws as int, rv) % ni) * pow(wsi as int, rv)))
            % ni; (==) {
            vstd::arithmetic::div_mod::lemma_mul_mod_noop_right(
                pow(y as int, c) * pow(we as int, rv),
                (pow(ws as int, rv) % ni) * pow(wsi as int, rv),
                ni,
            );
            assert(((pow(ws as int, rv) % ni) * pow(wsi as int, rv)) % ni == 1) by {
                vstd::arithmetic::div_mod::lemma_mul_mod_noop_left(
                    pow(ws as int, rv),
                    pow(wsi as int, rv),
                    ni,
                );
            }
        }
        ((pow(y as int, c) * pow(we as int, rv)) * 1) % ni; (==) {
            vstd::arithmetic::div_mod::lemma_mul_mod_noop_general(
                pow(y as int, c),
                pow(we as int, rv),
                ni,
            );
        }
        (crate::arithmetics::compose_val(pk, c, we)) as int;
    }
}

/// Per round, the prover either opens the capsule, revealing every
/// decomposition, or consumes it, revealing only a witness ratio.
pub enum Response {
    OpenCapsule(ClearCapsule),
    ConsumeCapsule(ClearResidue),
}

/// The concatenated 32-byte encodings of a capsule's element values.
pub open spec fn elems_bytes(es: Seq<OpaqueResidue>) -> Seq<u8>
    decreases es.len(),
{
    if es.len() == 0 {
        Seq::empty()
    } else {
        elems_bytes(es.drop_last()) + crate::bignum::be_bytes32(es.last().val())
    }
}

/// The byte transcript of a commitment: every capsule's elements, in order.
pub open spec fn transcript_bytes(cs: Seq<OpaqueCapsule>) -> Seq<u8>
    decreases cs.len(),
{
    if cs.len() == 0 {
        Seq::empty()
    } else {
        transcript_bytes(cs.drop_last()) + elems_bytes(cs.last().elements@)
    }
}

/// What an honest prover answers in one round: the full clear capsule when
/// the round is opened, a zero-class witness ratio when it is consumed.
pub open spec fn honest_response(resp: Response, answer: ClearCapsule, open: bool, group: nat) -> bool {
    match resp {
        Response::OpenCapsule(c) => open && c.elements@ == answer.elements@,
        Response::ConsumeCapsule(q) => !open && q.rc.val() == 0 && q.val.wf() && q.val.m() == group,
    }
}

/// Every element of the capsule carries an exact decomposition.
pub open spec fn all_exact(c: ClearCapsule) -> bool {
    forall|k: int| 0 <= k < c.elements@.len() ==> (#[trigger] c.elements@[k]).exact()
}

/// A consumed round's response rebuilds some element of the answering
/// capsule; open rounds are unconstrained here.
pub open spec fn consume_hits(statement: ClearResidue, resp: Response, answer: ClearCapsule) -> bool {
    match resp {
        Response::ConsumeCapsule(q) => exists|k: int|
            0 <= k < answer.elements@.len() && mul_mod(
                statement.val.val(),
                q.val.val(),
                statement.ambience.group(),
            ) == (#[trigger] answer.elements@[k]).val.val(),
        Response::OpenCapsule(_) => true,
    }
}

/// One round of verification: an opened capsule must match the commitment
/// value for value; a consumed capsule must contain the element rebuilt from
/// the statement and the revealed ratio.
pub open spec fn response_checks(statement: OpaqueResidue, commitment: OpaqueCapsule, response: Response) -> bool {
    match response {
        Response::ConsumeCapsule(q) => exists|k: int|
            0 <= k < commitment.elements@.len() && (#[trigger] commitment.elements@[k]).val()
                == mul_mod(statement.val(), q.val.val(), statement.m()),
        Response::OpenCapsule(o) => o.elements@.len() == commitment.elements@.len()
            && forall|k: int|
                0 <= k < commitment.elements@.len() ==> (#[trigger] commitment.elements@[k]).val()
                    == o.elements@[k].val.val(),
    }
}

/// The response variant obeys the challenge bit: an opened capsule for a
/// set bit, a consumed one for a clear bit.
pub open spec fn response_variant_matches(resp: Response, open: bool) -> bool {
    match resp {
        Response::OpenCapsule(_) => open,
        Response::ConsumeCapsule(_) => !open,
    }
}

/// A consumed round's revealed residue lives in the right group, so the
/// verifier can rebuild the claimed element.
pub open spec fn response_structural(resp: Response, group: nat) -> bool {
    match resp {
        Response::ConsumeCapsule(q) => q.val.wf() && q.val.m() == group,
        Response::OpenCapsule(_) => true,
    }
}

/// Proof that a ballot belongs to one of the pre-specified residue classes
/// without revealing which one.
pub struct BallotProof {
    pub statement: OpaqueResidue,
    pub commitment: Vec<OpaqueCapsule>,
    pub challenge: Vec<bool>,
    pub response: Vec<Response>,
}

/// The whole-transcript verification condition: the statement is a reduced
/// group element, the three round lists agree in length, the challenge is
/// exactly the hash of the commitment, every response answers its round in
/// the variant the challenge bit dictates, is structurally sound, and
/// checks out against its committed capsule.
pub open spec fn verify_spec(p: BallotProof) -> bool {
    &&& p.statement.wf()
    &&& p.commitment@.len() == p.challenge@.len()
    &&& p.commitment@.len() == p.response@.len()
    &&& p.challenge@.len() == 256
    &&& forall|i: int|
        0 <= i < 256 ==> p.challenge@[i] == crate::hashing::bit_of(
            crate::hashing::sha3_256_of(transcript_bytes(p.commitment@)),
            i,
        )
    &&& forall|i: int|
        0 <= i < p.response@.len() ==> response_variant_matches(
            #[trigger] p.response@[i],
            p.challenge@[i],
        )
    &&& forall|i: int|
        0 <= i < p.response@.len() ==> response_structural(
            #[trigger] p.response@[i],
            p.statement.m(),
        )
    &&& forall|i: int|
        0 <= i < p.commitment@.len() ==> response_checks(
            p.statement,
            p.commitment@[i],
            #[trigger] p.response@[i],
        )
}

impl BallotProof {
    /// Structural well-formedness of a transcript: everything lives in the
    /// statement's group.
    pub open spec fn wf(&self) -> bool {
        &&& self.statement.wf()
        &&& forall|i: int|
            0 <= i < self.commitment@.len() ==> (forall|k: int|
                0 <= k < (#[trigger] self.commitment@[i]).elements@.len() ==> (
                #[trigger] self.commitment@[i].elements@[k]).wf()
                    && self.commitment@[i].elements@[k].m() == self.statement.m())
        &&& forall|i: int|
            0 <= i < self.response@.len() ==> response_structural(
                #[trigger] self.response@[i],
                self.statement.m(),
            )
    }

    pub fn new(
        statement: OpaqueResidue,
        commitment: Vec<OpaqueCapsule>,
        challenge: Vec<bool>,
        response: Vec<Response>,
    ) -> (r: Self)
        ensures
            r.statement == statement,
            r.commitment == commitment,
            r.challenge == challenge,
            r.response == response,
    {
        BallotProof { statement, commitment, challenge, response }
    }

    /// Produce a proof that the statement lies in one of the given classes:
    /// commit to `CONFIDENCE` fresh capsules, derive the challenge bits from
    /// their hash, and answer each round. The statement's class must be a
    /// member of the allowed set — proving membership is the whole point,
    /// and spec behaviour makes answering for an outside class a hard
    /// failure, so such statements are excluded here.
    pub fn from_statement(statement: &ClearResidue, classes: &Vec<ResidueClass>, pk: &PublicKey) -> (r: Self)
        requires
            pk.wf(),
            statement.wf(),
            statement.ambience == *pk,
            forall|i: int|
                0 <= i < classes@.len() ==> (#[trigger] classes@[i]).wf() && classes@[i].m()
                    == pk.ring(),
            exists|ci: int|
                0 <= ci < classes@.len() && (#[trigger] classes@[ci]).val() == statement.rc.val(),
        ensures
            r.wf(),
            r.statement == statement.val,
            r.commitment@.len() == CONFIDENCE,
            r.challenge@.len() == CONFIDENCE,
            r.response@.len() == CONFIDENCE,
            forall|i: int|
                0 <= i < 256 ==> r.challenge@[i] == crate::hashing::bit_of(
                    crate::hashing::sha3_256_of(transcript_bytes(r.commitment@)),
                    i,
                ),
            forall|i: int|
                0 <= i < CONFIDENCE ==> response_variant_matches(
                    #[trigger] r.response@[i],
                    r.challenge@[i],
                ),
            statement.exact() ==> verify_spec(r),
    {
        let mut answers: Vec<ClearCapsule> = Vec::new();
        let mut i: usize = 0;
        #[verifier::loop_isolation(false)]
        while i < CONFIDENCE
            invariant
                i <= CONFIDENCE,
                answers@.len() == i,
                forall|k: int| 0 <= k < i ==> (#[trigger] answers@[k]).wf(*pk),
                forall|k: int| 0 <= k < i ==> all_exact(#[trigger] answers@[k]),
                forall|k: int, ci: int|
                    0 <= k < i && 0 <= ci < classes@.len() ==> covers(
                        (#[trigger] answers@[k]).elements@,
                        (#[trigger] classes@[ci]).val(),
                    ),
            decreases CONFIDENCE - i,
        {
            answers.push(ClearCapsule::generate(classes, pk));
            i = i + 1;
        }
        let mut commitment: Vec<OpaqueCapsule> = Vec::new();
        let mut j: usize = 0;
        #[verifier::loop_isolation(false)]
        while j < answers.len()
            invariant
                j <= answers@.len(),
                commitment@.len() == j,
                forall|k: int|
                    0 <= k < j ==> (#[trigger] commitment@[k]).elements@.len()
                        == answers@[k].elements@.len() && (forall|e: int|
                        0 <= e < commitment@[k].elements@.len()
                            ==> #[trigger] commitment@[k].elements@[e]
                            == answers@[k].elements@[e].val),
            decreases answers@.len() - j,
        {
            commitment.push(answers[j].obscure());
            j = j + 1;
        }
        let challenge = Self::generate_challenge(&commitment);
        proof {
            let ci = choose|ci: int|
                0 <= ci < classes@.len() && (#[trigger] classes@[ci]).val()
                    == statement.rc.val();
            assert forall|i2: int| 0 <= i2 < answers@.len() implies covers(
                (#[trigger] answers@[i2]).elements@,
                statement.rc.val(),
            ) by {
                assert(covers(answers@[i2].elements@, classes@[ci].val()));
            }
        }
        let response = Self::respond(statement, &answers, &challenge, pk);
        proof {
            assert forall|i2: int| 0 <= i2 < commitment@.len() implies (forall|k: int|
                0 <= k < (#[trigger] commitment@[i2]).elements@.len() ==> (
                #[trigger] commitment@[i2].elements@[k]).wf() && commitment@[i2].elements@[k].m()
                    == statement.val.m()) by {
                assert forall|k: int|
                    0 <= k < (#[trigger] commitment@[i2]).elements@.len() implies (
                    #[trigger] commitment@[i2].elements@[k]).wf()
                        && commitment@[i2].elements@[k].m() == statement.val.m() by {
                    assert(answers@[i2].wf(*pk));
                    assert(answers@[i2].elements@[k].wf());
                }
            }
        }
        let result = BallotProof {
            statement: statement.clone_val(),
            commitment,
            challenge,
            response,
        };
        proof {
            assert forall|i2: int| 0 <= i2 < result.response@.len() implies
                response_variant_matches(
                    #[trigger] result.response@[i2],
                    result.challenge@[i2],
                ) && response_structural(#[trigger] result.response@[i2], result.statement.m()) by {
                assert(honest_response(response@[i2], answers@[i2], challenge@[i2], pk.group()));
            }
            if statement.exact() {
                assert forall|i2: int| 0 <= i2 < result.commitment@.len() implies response_checks(
                    result.statement,
                    result.commitment@[i2],
                    #[trigger] result.response@[i2],
                ) by {
                    assert(honest_response(
                        response@[i2],
                        answers@[i2],
                        challenge@[i2],
                        pk.group(),
                    ));
                    assert(consume_hits(*statement, response@[i2], answers@[i2]));
                    match response@[i2] {
                        Response::OpenCapsule(o) => {
                            assert forall|k: int|
                                0 <= k < result.commitment@[i2].elements@.len() implies (
                            #[trigger] result.commitment@[i2].elements@[k]).val()
                                == o.elements@[k].val.val() by {
                                assert(commitment@[i2].elements@[k]
                                    == answers@[i2].elements@[k].val);
                            }
                        },
                        Response::ConsumeCapsule(q) => {
                            let k = choose|k: int|
                                0 <= k < answers@[i2].elements@.len() && mul_mod(
                                    statement.val.val(),
                                    q.val.val(),
                                    statement.ambience.group(),
                                ) == (#[trigger] answers@[i2].elements@[k]).val.val();
                            assert(commitment@[i2].elements@[k] == answers@[i2].elements@[k].val);
                            assert(result.commitment@[i2].elements@[k].val() == mul_mod(
                                result.statement.val(),
                                q.val.val(),
                                result.statement.m(),
                            ));
                        },
                    }
                }
            }
        }
        result
    }

    /// Hash the committed capsules into the per-round challenge bits.
    fn generate_challenge(commitment: &Vec<OpaqueCapsule>) -> (r: Vec<bool>)
        ensures
            r@.len() == 256,
            forall|i: int|
                0 <= i < 256 ==> r@[i] == crate::hashing::bit_of(
                    crate::hashing::sha3_256_of(transcript_bytes(commitment@)),
                    i,
                ),
    {
        let mut buf: Vec<u8> = Vec::new();
        let mut i: usize = 0;
        proof {
            assert(commitment@.take(0) =~= Seq::<OpaqueCapsule>::empty());
        }
        #[verifier::loop_isolation(false)]
        while i < commitment.len()
            invariant
                i <= commitment@.len(),
                buf@ == transcript_bytes(commitment@.take(i as int)),
            decreases commitment@.len() - i,
        {
            let capsule = &commitment[i];
            let mut j: usize = 0;
            proof {
                assert(capsule.elements@.take(0) =~= Seq::<OpaqueResidue>::empty());
                assert(buf@ =~= transcript_bytes(commitment@.take(i as int)) + elems_bytes(
                    capsule.elements@.take(0),
                ));
            }
            #[verifier::loop_isolation(false)]
            while j < capsule.elements.len()
                invariant
                    i < commitment@.len(),
                    capsule == commitment@[i as int],
                    j <= capsule.elements@.len(),
                    buf@ == transcript_bytes(commitment@.take(i as int)) + elems_bytes(
                        capsule.elements@.take(j as int),
                    ),
                decreases capsule.elements@.len() - j,
            {
                crate::hashing::push_value_bytes(&mut buf, &capsule.elements[j].residue);
                proof {
                    assert(capsule.elements@.take(j + 1).drop_last() =~= capsule.elements@.take(
                        j as int,
                    ));
                    assert(capsule.elements@.take(j + 1).last() == capsule.elements@[j as int]);
                }
                j = j + 1;
            }
            proof {
                assert(capsule.elements@.take(capsule.elements@.len() as int)
                    =~= capsule.elements@);
                assert(commitment@.take(i + 1).drop_last() =~= commitment@.take(i as int));
                assert(commitment@.take(i + 1).last() == commitment@[i as int]);
            }
            i = i + 1;
        }
        proof {
            assert(commitment@.take(commitment@.len() as int) =~= commitment@);
        }
        crate::hashing::derive_bits(&buf)
    }

    /// Answer each round: open the capsule when the challenge bit says so,
    /// otherwise consume it against the statement. Every capsule must hold
    /// an element of the statement's class — spec behaviour: consuming a
    /// statement outside the allowed set is a hard failure, so such inputs
    /// are excluded here rather than answered.
    fn respond(
        statement: &ClearResidue,
        answers: &Vec<ClearCapsule>,
        challenge: &Vec<bool>,
        pk: &PublicKey,
    ) -> (r: Vec<Response>)
        requires
            pk.wf(),
            statement.wf(),
            statement.ambience == *pk,
            challenge@.len() == answers@.len(),
            forall|i: int| 0 <= i < answers@.len() ==> (#[trigger] answers@[i]).wf(*pk),
            forall|i: int| 0 <= i < answers@.len() ==> all_exact(#[trigger] answers@[i]),
            forall|i: int|
                0 <= i < answers@.len() ==> covers(
                    (#[trigger] answers@[i]).elements@,
                    statement.rc.val(),
                ),
        ensures
            r@.len() == answers@.len(),
            forall|i: int|
                0 <= i < r@.len() ==> honest_response(
                    #[trigger] r@[i],
                    answers@[i],
                    challenge@[i],
                    pk.group(),
                ),
            forall|i: int|
                0 <= i < r@.len() ==> (statement.exact() ==> consume_hits(
                    *statement,
                    #[trigger] r@[i],
                    answers@[i],
                )),
    {
        let mut responses: Vec<Response> = Vec::new();
        let mut i: usize = 0;
        #[verifier::loop_isolation(false)]
        while i < answers.len()
            invariant
                i <= answers@.len(),
                responses@.len() == i,
                forall|k: int|
                    0 <= k < i ==> honest_response(
                        #[trigger] responses@[k],
                        answers@[k],
                        challenge@[k],
                        pk.group(),
                    ),
                forall|k: int|
                    0 <= k < i ==> (statement.exact() ==> consume_hits(
                        *statement,
                        #[trigger] responses@[k],
                        answers@[k],
                    )),
            decreases answers@.len() - i,
        {
            if challenge[i] {
                responses.push(Response::OpenCapsule(answers[i].duplicate()));
            } else {
                let found = answers[i].consume(statement, pk);
                proof {
                    // the precondition guarantees a matching element, so
                    // consumption cannot come back empty
                    if found is None {
                        let j = choose|j: int|
                            0 <= j < answers@[i as int].elements@.len() && (
                            #[trigger] answers@[i as int].elements@[j]).rc.val()
                                == statement.rc.val();
                        assert(false);
                    }
                }
                let consumed = match found {
                    Some(c) => c,
                    None => {
                        // unreachable under the precondition; an unverified
                        // caller outside it still receives a response, one
                        // that cannot reconstruct any committed element
                        let one = crate::bignum::Num::one();
                        proof {
                            crate::modmath::lemma_one_invertible(pk.group());
                        }
                        ClearResidue::compose(crate::bignum::Num::zero(), one, pk)
                    },
                };
                proof {
                    if statement.exact() {
                        assert(all_exact(answers@[i as int]));
                        assert(consume_hits(
                            *statement,
                            Response::ConsumeCapsule(consumed),
                            answers@[i as int],
                        ));
                    }
                }
                responses.push(Response::ConsumeCapsule(consumed));
            }
            i = i + 1;
        }
        responses
    }

    /// Check one round of the transcript.
    fn verify_response(statement: &OpaqueResidue, commitment: &OpaqueCapsule, response: &Response) -> (r: bool)
        requires
            statement.wf(),
            response_structural(*response, statement.m()),
        ensures
            r == response_checks(*statement, *commitment, *response),
    {
        match response {
            Response::ConsumeCapsule(quotient) => {
                let reconstructed = statement.mul(quotient.get_val());
                let mut k: usize = 0;
                #[verifier::loop_isolation(false)]
                while k < commitment.elements.len()
                    invariant
                        k <= commitment.elements@.len(),
                        reconstructed.val() == mul_mod(
                            statement.val(),
                            quotient.val.val(),
                            statement.m(),
                        ),
                        forall|e: int|
                            0 <= e < k ==> (#[trigger] commitment.elements@[e]).val()
                                != reconstructed.val(),
                    decreases commitment.elements@.len() - k,
                {
                    if commitment.elements[k].residue.eq_val(&reconstructed.residue) {
                        return true;
                    }
                    k = k + 1;
                }
                false
            },
            Response::OpenCapsule(open_cap) => {
                if open_cap.elements.len() != commitment.elements.len() {
                    return false;
                }
                let mut k: usize = 0;
                #[verifier::loop_isolation(false)]
                while k < commitment.elements.len()
                    invariant
                        k <= commitment.elements@.len(),
                        open_cap.elements@.len() == commitment.elements@.len(),
                        forall|e: int|
                            0 <= e < k ==> (#[trigger] commitment.elements@[e]).val()
                                == open_cap.elements@[e].val.val(),
                    decreases commitment.elements@.len() - k,
                {
                    if !commitment.elements[k].residue.eq_val(&open_cap.elements[k].val.residue) {
                        return false;
                    }
                    k = k + 1;
                }
                true
            },
        }
    }

    /// Verify the whole proof on an arbitrary, untrusted transcript: the
    /// statement and every revealed residue are bounds-checked at runtime,
    /// the challenge bits are recomputed from the commitment hash, each
    /// round must answer in the variant its bit dictates, and each round
    /// must check out. A malformed transcript fails verification, it never
    /// aborts.
    pub fn verify(&self) -> (r: bool)
        ensures
            r == verify_spec(*self),
    {
        let one = Num::one();
        if !one.lt(&self.statement.modulus) {
            return false;
        }
        if !self.statement.modulus.is_odd() {
            return false;
        }
        if !self.statement.residue.lt(&self.statement.modulus) {
            return false;
        }
        if self.commitment.len() != self.challenge.len() {
            return false;
        }
        if self.commitment.len() != self.response.len() {
            return false;
        }
        if self.challenge.len() != 256 {
            return false;
        }
        // the challenge must be exactly the hash of the commitment
        let derived = Self::generate_challenge(&self.commitment);
        let mut i: usize = 0;
        #[verifier::loop_isolation(false)]
        while i < 256
            invariant
                i <= 256,
                derived@.len() == 256,
                self.challenge@.len() == 256,
                forall|k: int| 0 <= k < i ==> self.challenge@[k] == derived@[k],
            decreases 256 - i,
        {
            if self.challenge[i] != derived[i] {
                return false;
            }
            i = i + 1;
        }
        let mut j: usize = 0;
        #[verifier::loop_isolation(false)]
        while j < self.commitment.len()
            invariant
                j <= self.commitment@.len(),
                self.statement.wf(),
                forall|k: int|
                    0 <= k < j ==> response_variant_matches(
                        #[trigger] self.response@[k],
                        self.challenge@[k],
                    ),
                forall|k: int|
                    0 <= k < j ==> response_structural(
                        #[trigger] self.response@[k],
                        self.statement.m(),
                    ),
                forall|k: int|
                    0 <= k < j ==> response_checks(
                        self.statement,
                        self.commitment@[k],
                        #[trigger] self.response@[k],
                    ),
            decreases self.commitment@.len() - j,
        {
            match &self.response[j] {
                Response::OpenCapsule(_) => {
                    if !self.challenge[j] {
                        return false;
                    }
                },
                Response::ConsumeCapsule(q) => {
                    if self.challenge[j] {
                        return false;
                    }
                    // the revealed residue must be a reduced element of the
                    // statement's group
                    if !q.val.modulus.eq_val(&self.statement.modulus) {
                        return false;
                    }
                    if !q.val.residue.lt(&q.val.modulus) {
                        return false;
                    }
                },
            }
            if !Self::verify_response(&self.statement, &self.commitment[j], &self.response[j]) {
                return false;
            }
            j = j + 1;
        }
        proof {
            assert(self.statement.wf());
            assert(self.commitment@.len() == self.challenge@.len());
            assert(self.commitment@.len() == self.response@.len());
            assert(self.challenge@.len() == 256);
            assert forall|k: int| 0 <= k < 256 implies self.challenge@[k]
                == crate::hashing::bit_of(
                crate::hashing::sha3_256_of(transcript_bytes(self.commitment@)),
                k,
            ) by {
                assert(self.challenge@[k] == derived@[k]);
                assert(derived@[k] == crate::hashing::bit_of(
                    crate::hashing::sha3_256_of(transcript_bytes(self.commitment@)),
                    k,
                ));
            }
            assert(forall|k: int|
                0 <= k < self.response@.len() ==> response_variant_matches(
                    #[trigger] self.response@[k],
                    self.challenge@[k],
                ));
            assert(forall|k: int|
                0 <= k < self.response@.len() ==> response_structural(
                    #[trigger] self.response@[k],
                    self.statement.m(),
                ));
            assert(forall|k: int|
                0 <= k < self.commitment@.len() ==> response_checks(
                    self.statement,
                    self.commitment@[k],
                    #[trigger] self.response@[k],
                ));
        }
        true
    }
}

} // verus!
