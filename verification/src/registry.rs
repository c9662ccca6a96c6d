//! The relay's subscriber registry: the list of per-connection outbound
//! channels, with fan-out broadcast that prunes, in the same pass, every
//! subscriber whose receiving side has gone away. The surrounding server
//! guards a `Registry` with its own lock; nothing here performs socket I/O.

use vstd::prelude::*;
use std::sync::mpsc::Sender;

verus! {

#[verifier::external_type_specification]
#[verifier::external_body]
#[verifier::reject_recursive_types(T)]
pub struct ExSender<T>(Sender<T>);

/// Relies on `std::sync::mpsc::Sender::send`: it returns `Ok` exactly when
/// the receiving half of the channel is still alive, and the text is then
/// queued for that receiver; `Err` means the receiver was dropped. Whether a
/// given send succeeds depends on the peer, so nothing more is promised.
#[verifier::external_body]
fn subscriber_send(s: &Sender<String>, text: &str) -> (ok: bool) {
    s.send(text.to_string()).is_ok()
}

/// The subsequence of `s` whose positions are marked true in `keep`.
pub open spec fn filter_by<T>(s: Seq<T>, keep: Seq<bool>) -> Seq<T>
    decreases s.len(),
{
    if s.len() == 0 {
        Seq::empty()
    } else {
        (if keep[0] {
            seq![s[0]]
        } else {
            Seq::empty()
        }) + filter_by(s.drop_first(), keep.drop_first())
    }
}

pub open spec fn count_true(keep: Seq<bool>) -> int
    decreases keep.len(),
{
    if keep.len() == 0 {
        0int
    } else {
        (if keep[0] {
            1int
        } else {
            0int
        }) + count_true(keep.drop_first())
    }
}

proof fn lemma_filter_by_snoc<T>(s: Seq<T>, keep: Seq<bool>, x: T, b: bool)
    requires
        s.len() == keep.len(),
    ensures
        filter_by(s.push(x), keep.push(b)) == filter_by(s, keep) + (if b {
            seq![x]
        } else {
            Seq::<T>::empty()
        }),
        count_true(keep.push(b)) == count_true(keep) + (if b {
            1int
        } else {
            0int
        }),
    decreases s.len(),
{
    if s.len() == 0 {
        assert(s.push(x) =~= seq![x]);
        assert(keep.push(b) =~= seq![b]);
        assert(s.push(x).drop_first() =~= Seq::<T>::empty());
        assert(keep.push(b).drop_first() =~= Seq::<bool>::empty());
        assert(filter_by(Seq::<T>::empty(), Seq::<bool>::empty()) == Seq::<T>::empty());
        assert(count_true(Seq::<bool>::empty()) == 0);
        assert(filter_by(s.push(x), keep.push(b)) =~= filter_by(s, keep) + (if b {
            seq![x]
        } else {
            Seq::<T>::empty()
        }));
    } else {
        assert(s.push(x).drop_first() =~= s.drop_first().push(x));
        assert(keep.push(b).drop_first() =~= keep.drop_first().push(b));
        assert(s.push(x)[0] == s[0]);
        assert(keep.push(b)[0] == keep[0]);
        lemma_filter_by_snoc(s.drop_first(), keep.drop_first(), x, b);
        assert(filter_by(s.push(x), keep.push(b)) =~= filter_by(s, keep) + (if b {
            seq![x]
        } else {
            Seq::<T>::empty()
        }));
    }
}

/// The live list of subscribers, in registration order.
pub struct Registry {
    subs: Vec<Sender<String>>,
}

impl View for Registry {
    type V = Seq<Sender<String>>;

    closed spec fn view(&self) -> Seq<Sender<String>> {
        self.subs@
    }
}

impl Registry {
    pub fn new() -> (r: Registry)
        ensures
            r@.len() == 0,
    {
        Registry { subs: Vec::new() }
    }

    /// Appends one subscriber; no upper bound is enforced.
    pub fn register(&mut self, subscriber: Sender<String>)
        ensures
            final(self)@ == old(self)@.push(subscriber),
    {
        self.subs.push(subscriber);
    }

    pub fn subscriber_count(&self) -> (n: usize)
        ensures
            n == self@.len(),
    {
        self.subs.len()
    }

    /// Attempts to deliver `text` to every subscriber, in registration order,
    /// and removes — in this same pass — exactly those whose send failed. The
    /// survivors are therefore a subsequence of the old list (order kept),
    /// marked by some keep-vector whose true positions were delivered to, and
    /// the result counts those deliveries.
    pub fn broadcast_text(&mut self, text: &str) -> (delivered: usize)
        ensures
            exists|keep: Seq<bool>|
                {
                    &&& keep.len() == old(self)@.len()
                    &&& final(self)@ == #[trigger] filter_by(old(self)@, keep)
                    &&& delivered == count_true(keep)
                },
            final(self)@.len() <= old(self)@.len(),
            delivered <= old(self)@.len(),
    {
        let n = self.subs.len();
        let ghost orig = self.subs@;
        proof {
            assert(orig.len() == n <= usize::MAX);
        }
        let mut kept: Vec<Sender<String>> = Vec::new();
        let ghost mut keep = Seq::<bool>::empty();
        let mut delivered: usize = 0;
        proof {
            assert(orig.take(0) =~= Seq::<Sender<String>>::empty());
            assert(filter_by(orig.take(0), keep) =~= Seq::<Sender<String>>::empty());
        }
        while self.subs.len() > 0
            invariant
                orig.len() <= usize::MAX,
                orig.len() >= self.subs@.len(),
                keep.len() == orig.len() - self.subs@.len(),
                self.subs@ == orig.skip(keep.len() as int),
                kept@ == filter_by(orig.take(keep.len() as int), keep),
                delivered == count_true(keep),
                delivered <= keep.len(),
            decreases self.subs@.len(),
        {
            let ghost processed = keep.len() as int;
            let s = self.subs.remove(0);
            proof {
                assert(s == orig.skip(processed)[0]);
                assert(s == orig[processed]);
                assert(self.subs@ =~= orig.skip(processed + 1));
            }
            let ok = subscriber_send(&s, text);
            if ok {
                kept.push(s);
                delivered = delivered + 1;
            }
            proof {
                lemma_filter_by_snoc(orig.take(processed), keep, orig[processed], ok);
                assert(orig.take(processed + 1) =~= orig.take(processed).push(orig[processed]));
                keep = keep.push(ok);
                assert(kept@ =~= filter_by(orig.take(keep.len() as int), keep));
            }
        }
        self.subs = kept;
        proof {
            assert(orig.take(keep.len() as int) =~= orig);
            assert(keep.len() == orig.len());
            assert(self@ == filter_by(orig, keep));
            lemma_filter_by_shrinks(orig, keep);
            assert(keep.len() == old(self)@.len() && self@ == filter_by(old(self)@, keep)
                && delivered == count_true(keep));
        }
        delivered
    }
}

proof fn lemma_count_true_bound(keep: Seq<bool>)
    ensures
        0 <= count_true(keep) <= keep.len(),
    decreases keep.len(),
{
    if keep.len() > 0 {
        lemma_count_true_bound(keep.drop_first());
    }
}

/// Pruning never grows the registry: whatever sends fail, the survivors of a
/// broadcast pass are a subsequence of the prior list, so repeated broadcasts
/// only ever shrink it.
pub proof fn lemma_filter_by_shrinks<T>(s: Seq<T>, keep: Seq<bool>)
    requires
        s.len() == keep.len(),
    ensures
        filter_by(s, keep).len() <= s.len(),
        count_true(keep) == filter_by(s, keep).len(),
    decreases s.len(),
{
    if s.len() > 0 {
        lemma_filter_by_shrinks(s.drop_first(), keep.drop_first());
    }
}

} // verus!
