//! The Fiat-Shamir transcript, backed by a fixed sponge construction.
//!
//! The transcript's model is its history: the sequence of field elements it
//! has absorbed, with a parallel sequence marking which entries were produced
//! by a squeeze (`true`) rather than supplied by a caller (`false`).  The
//! squeezed value is a function of the whole history so far, named by the
//! uninterpreted `sponge_out`; every challenge is therefore pinned by the
//! history, which is what makes the challenge derivation deterministic.

use vstd::prelude::*;
use ark_crypto_primitives::sponge::CryptographicSponge;
use ark_crypto_primitives::sponge::FieldBasedCryptographicSponge;
use ark_crypto_primitives::sponge::poseidon::{find_poseidon_ark_and_mds, PoseidonConfig, PoseidonSponge};
use crate::field::{fr_ord, in_field};
use crate::scalar::{Scalar, FrRaw, views};
use crate::group::{G1Elem, sponge_coords_of, gr_sponge_coords_of};

verus! {

/// Opaque holder for the outside library's sponge state.
#[verifier::external_body]
pub(crate) struct SpongeRaw {
    pub(crate) inner: ark_crypto_primitives::sponge::poseidon::PoseidonSponge<ark_bn254::Fr>,
}

/// What one squeeze of the sponge returns after the given history of
/// absorbed values (`kinds` marks which of them were earlier squeezes).
pub uninterp spec fn sponge_out(vals: Seq<int>, kinds: Seq<bool>) -> int;

/// A Fiat-Shamir transcript over the primary curve's scalar field.
pub struct Transcript {
    pub(crate) sponge: SpongeRaw,
    pub(crate) state: Scalar,
    pub(crate) hist_vals: Ghost<Seq<int>>,
    pub(crate) hist_kinds: Ghost<Seq<bool>>,
}

impl Transcript {
    /// The model of the transcript's recorded state: the last challenge.
    pub closed spec fn state_model(&self) -> int {
        self.state@
    }
}

impl View for Transcript {
    type V = (Seq<int>, Seq<bool>);

    closed spec fn view(&self) -> (Seq<int>, Seq<bool>) {
        (self.hist_vals@, self.hist_kinds@)
    }
}

/// The history after squeezing one challenge and absorbing it back, as the
/// transcript does on every challenge.
pub open spec fn hist_after_challenge(h: (Seq<int>, Seq<bool>)) -> (Seq<int>, Seq<bool>) {
    let c = sponge_out(h.0, h.1);
    (h.0 + seq![c, c], h.1 + seq![true, false])
}

/// The history after absorbing a sequence of caller-supplied values.
pub open spec fn hist_after_absorb(h: (Seq<int>, Seq<bool>), vals: Seq<int>) -> (
    Seq<int>,
    Seq<bool>,
) {
    (h.0 + vals, h.1 + Seq::new(vals.len(), |i: int| false))
}

/// The challenges drawn by `n` consecutive challenge rounds.
pub open spec fn challenge_run(h: (Seq<int>, Seq<bool>), n: nat) -> Seq<int>
    decreases n,
{
    if n == 0 {
        Seq::empty()
    } else {
        seq![sponge_out(h.0, h.1)] + challenge_run(hist_after_challenge(h), (n - 1) as nat)
    }
}

/// The history after `n` consecutive challenge rounds.
pub open spec fn hist_after_challenges(h: (Seq<int>, Seq<bool>), n: nat) -> (Seq<int>, Seq<bool>)
    decreases n,
{
    if n == 0 {
        h
    } else {
        hist_after_challenges(hist_after_challenge(h), (n - 1) as nat)
    }
}

impl Transcript {
    /// Relies on the outside sponge construction with its fixed parameters;
    /// the freshly built sponge corresponds to the empty history.
    #[verifier::external_body]
    fn fresh_sponge() -> SpongeRaw {
        let (ark, mds) = find_poseidon_ark_and_mds::<ark_bn254::Fr>(254, 4, 8, 60, 0);
        let config = PoseidonConfig::new(8, 60, 5, mds, ark, 4, 1);
        SpongeRaw { inner: PoseidonSponge::new(&config) }
    }

    /// Relies on the outside sponge's absorb operation: it appends the value
    /// to the history and touches nothing else.
    #[verifier::external_body]
    fn absorb(&mut self, s: &Scalar)
        ensures
            final(self).hist_vals@ == old(self).hist_vals@.push(s@),
            final(self).hist_kinds@ == old(self).hist_kinds@.push(false),
            final(self).state == old(self).state,
    {
        self.sponge.inner.absorb(&s.raw.inner);
    }

    /// Relies on the outside sponge's squeeze being a function of the whole
    /// operation history alone, with a canonical field element as result.
    #[verifier::external_body]
    fn squeeze(&mut self) -> (r: Scalar)
        ensures
            r@ == sponge_out(old(self).hist_vals@, old(self).hist_kinds@),
            in_field(fr_ord(), r@),
            final(self).hist_vals@ == old(self).hist_vals@.push(r@),
            final(self).hist_kinds@ == old(self).hist_kinds@.push(true),
            final(self).state == old(self).state,
    {
        let out = self.sponge.inner.squeeze_native_field_elements(1)[0];
        Scalar { raw: FrRaw { inner: out }, model: Ghost(0int) }
    }

    /// A transcript with an empty history.  The label is not absorbed.
    pub fn new(_label: &str) -> (r: Transcript)
        ensures
            r@ == (Seq::<int>::empty(), Seq::<bool>::empty()),
    {
        Transcript {
            sponge: Self::fresh_sponge(),
            state: Scalar::one(),
            hist_vals: Ghost(Seq::empty()),
            hist_kinds: Ghost(Seq::empty()),
        }
    }

    /// Absorbs one machine integer, reduced into the field.
    pub fn append_u64(&mut self, _label: &str, n: u64)
        ensures
            final(self)@ == hist_after_absorb(old(self)@, seq![(n as int) % fr_ord()]),
    {
        let f = Scalar::from_u64(n);
        self.absorb(&f);
        proof {
            lemma_single_absorb(old(self)@, (n as int) % fr_ord());
        }
    }

    /// Kept for interface compatibility; absorbs nothing.
    pub fn append_message(&mut self, _label: &str, _msg: &str)
        ensures
            final(self)@ == old(self)@,
    {
    }

    /// Absorbs one scalar.
    pub fn append_scalar(&mut self, _label: &str, scalar: &Scalar)
        ensures
            final(self)@ == hist_after_absorb(old(self)@, seq![scalar@]),
    {
        self.absorb(scalar);
        proof {
            lemma_single_absorb(old(self)@, scalar@);
        }
    }

    /// Absorbs a sequence of scalars, in order.
    pub fn append_scalars(&mut self, _label: &str, scalars: &Vec<Scalar>)
        ensures
            final(self)@ == hist_after_absorb(old(self)@, views(scalars@)),
    {
        let mut k: usize = 0;
        while k < scalars.len()
            invariant
                k <= scalars@.len(),
                self@ == hist_after_absorb(old(self)@, views(scalars@).subrange(0, k as int)),
            decreases scalars@.len() - k,
        {
            let ghost pre = self@;
            self.absorb(&scalars[k]);
            proof {
                assert(views(scalars@).subrange(0, k + 1) =~= views(scalars@).subrange(0,
                    k as int).push(scalars@[k as int]@));
                assert(self@.0 =~= hist_after_absorb(old(self)@, views(scalars@).subrange(0, k
                    + 1)).0);
                assert(self@.1 =~= hist_after_absorb(old(self)@, views(scalars@).subrange(0, k
                    + 1)).1);
            }
            k = k + 1;
        }
        proof {
            assert(views(scalars@).subrange(0, scalars@.len() as int) =~= views(scalars@));
        }
    }

    /// Squeezes one challenge, records it as the transcript state, and
    /// absorbs it back into the sponge.
    pub fn challenge_scalar(&mut self, _label: &str) -> (r: Scalar)
        ensures
            r@ == sponge_out(old(self)@.0, old(self)@.1),
            in_field(fr_ord(), r@),
            final(self)@ == hist_after_challenge(old(self)@),
            final(self).state_model() == r@,
    {
        let out = self.squeeze();
        self.state = out.clone();
        self.absorb(&out);
        proof {
            assert(self@.0 =~= hist_after_challenge(old(self)@).0);
            assert(self@.1 =~= hist_after_challenge(old(self)@).1);
        }
        out
    }

    /// Draws `len` consecutive challenges.
    pub fn challenge_vector(&mut self, _label: &str, len: usize) -> (r: Vec<Scalar>)
        ensures
            r@.len() == len,
            views(r@) == challenge_run(old(self)@, len as nat),
            final(self)@ == hist_after_challenges(old(self)@, len as nat),
    {
        let mut out: Vec<Scalar> = Vec::new();
        let mut k: usize = 0;
        while k < len
            invariant
                k <= len,
                out@.len() == k,
                views(out@) == challenge_run(old(self)@, k as nat),
                self@ == hist_after_challenges(old(self)@, k as nat),
            decreases len - k,
        {
            let ghost pre = self@;
            let c = self.challenge_scalar(_label);
            out.push(c);
            proof {
                lemma_challenge_run_step(old(self)@, k as nat);
                assert(views(out@) =~= challenge_run(old(self)@, (k + 1) as nat));
            }
            k = k + 1;
        }
        out
    }

    /// Absorbs the two coordinate scalars of a group element.
    pub fn append_point(&mut self, _label: &str, point: &G1Elem)
        ensures
            final(self)@ == hist_after_absorb(old(self)@, point_coords(point@)),
    {
        let (cx, cy) = point.to_sponge_scalars();
        self.absorb(&cx);
        self.absorb(&cy);
        proof {
            assert(self@.0 =~= hist_after_absorb(old(self)@, point_coords(point@)).0);
            assert(self@.1 =~= hist_after_absorb(old(self)@, point_coords(point@)).1);
        }
    }

    /// Absorbs the coordinate scalars of a sequence of group elements.
    pub fn append_points(&mut self, _label: &str, points: &Vec<G1Elem>)
        ensures
            final(self)@ == points_hist(old(self)@, views(points@), points@.len() as int),
    {
        let mut k: usize = 0;
        while k < points.len()
            invariant
                k <= points@.len(),
                self@ == points_hist(old(self)@, views(points@), k as int),
            decreases points@.len() - k,
        {
            self.append_point(_label, &points[k]);
            k = k + 1;
        }
    }
}

/// The two coordinate scalars that the transcript absorbs for the group
/// element with discrete logarithm `d`.
pub open spec fn point_coords(d: int) -> Seq<int> {
    seq![sponge_coords_of(d)[0], sponge_coords_of(d)[1]]
}

/// The two coordinate scalars that the transcript absorbs for the
/// companion-curve element with discrete logarithm `d`.
pub open spec fn gr_point_coords(d: int) -> Seq<int> {
    seq![gr_sponge_coords_of(d)[0], gr_sponge_coords_of(d)[1]]
}

/// The history after absorbing the coordinates of the first `n` of the
/// group elements with the given discrete logarithms.
pub open spec fn points_hist(h: (Seq<int>, Seq<bool>), ds: Seq<int>, n: int) -> (
    Seq<int>,
    Seq<bool>,
)
    decreases n,
{
    if n <= 0 {
        h
    } else {
        hist_after_absorb(points_hist(h, ds, n - 1), point_coords(ds[n - 1]))
    }
}

/// Absorbing one value is absorbing a one-element sequence.
proof fn lemma_single_absorb(h: (Seq<int>, Seq<bool>), v: int)
    ensures
        hist_after_absorb(h, seq![v]) == (h.0.push(v), h.1.push(false)),
{
    assert(hist_after_absorb(h, seq![v]).0 =~= h.0.push(v));
    assert(hist_after_absorb(h, seq![v]).1 =~= h.1.push(false));
}

/// One more challenge extends the run by the challenge drawn from the
/// history that the earlier rounds left.
proof fn lemma_challenge_run_step(h: (Seq<int>, Seq<bool>), n: nat)
    ensures
        challenge_run(h, n + 1) == challenge_run(h, n) + seq![
            sponge_out(hist_after_challenges(h, n).0, hist_after_challenges(h, n).1),
        ],
        hist_after_challenges(h, n + 1) == hist_after_challenge(hist_after_challenges(h, n)),
    decreases n,
{
    if n == 0 {
        assert(challenge_run(hist_after_challenge(h), 0) == Seq::<int>::empty());
        assert(hist_after_challenges(hist_after_challenge(h), 0) == hist_after_challenge(h));
        assert(hist_after_challenges(h, 1) == hist_after_challenges(hist_after_challenge(h), 0));
        assert(hist_after_challenges(h, 0) == h);
        assert(challenge_run(h, 1) =~= seq![sponge_out(h.0, h.1)]);
        assert(challenge_run(h, 1) == challenge_run(h, 0) + seq![sponge_out(h.0, h.1)]);
    } else {
        lemma_challenge_run_step(hist_after_challenge(h), (n - 1) as nat);
        assert(challenge_run(h, n + 1) == seq![sponge_out(h.0, h.1)] + challenge_run(
            hist_after_challenge(h), n));
        assert(challenge_run(h, n) + seq![
            sponge_out(hist_after_challenges(h, n).0, hist_after_challenges(h, n).1),
        ] =~= seq![sponge_out(h.0, h.1)] + (challenge_run(hist_after_challenge(h), (n - 1) as nat)
            + seq![
            sponge_out(hist_after_challenges(h, n).0, hist_after_challenges(h, n).1),
        ]));
        assert(hist_after_challenges(hist_after_challenge(h), n) == hist_after_challenges(h, n
            + 1));
        assert(hist_after_challenges(hist_after_challenge(h), (n - 1) as nat)
            == hist_after_challenges(h, n));
    }
}

} // verus!
