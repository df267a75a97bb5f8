use vstd::prelude::*;

verus! {

/// A 256-bit digest, as four 64-bit words, most significant first.
#[derive(PartialEq, Eq, Structural, Clone, Copy, Debug)]
pub struct Digest {
    pub w0: u64,
    pub w1: u64,
    pub w2: u64,
    pub w3: u64,
}

/// A decoded block header: what continuity checks read of it, and its
/// encoding without the seal, which is what gets staged.
pub struct RawHeader {
    pub number: u64,
    pub hash: Digest,
    pub parent_hash: Digest,
    pub unsealed: Vec<u8>,
}

/// The mathematical value of a `RawHeader`.
pub struct HeaderView {
    pub number: u64,
    pub hash: Digest,
    pub parent_hash: Digest,
    pub unsealed: Seq<u8>,
}

impl View for RawHeader {
    type V = HeaderView;

    open spec fn view(&self) -> HeaderView {
        HeaderView {
            number: self.number,
            hash: self.hash,
            parent_hash: self.parent_hash,
            unsealed: self.unsealed@,
        }
    }
}

impl RawHeader {
    /// A copy of this header.
    pub fn clone_header(&self) -> (r: RawHeader)
        ensures
            r@ == self@,
    {
        let unsealed = self.unsealed.clone();
        assert(unsealed@ =~= self.unsealed@);
        RawHeader { number: self.number, hash: self.hash, parent_hash: self.parent_hash, unsealed }
    }
}

/// One element of a header response, after decoding and the structural
/// check of the validity engine.
pub enum Candidate {
    /// The element could not be decoded as a header.
    Undecodable,
    /// The header failed the structural or seal check.
    Invalid,
    /// The header passed the structural and seal check.
    Valid(RawHeader),
}

/// Whether `h` follows, by number and parent hash, the header whose number
/// and hash are `prev`.
pub open spec fn chains_to(prev: (u64, Digest), h: HeaderView) -> bool {
    h.number == prev.0 + 1 && h.parent_hash == prev.1
}

/// The headers accepted from `c` when the last accepted header before it
/// has number and hash `prev`: headers that did not decode or failed the
/// structural check are skipped, and the first valid header that does not
/// follow the last accepted one ends the batch.
pub open spec fn accept_from(c: Seq<Candidate>, prev: Option<(u64, Digest)>) -> Seq<HeaderView>
    decreases c.len(),
{
    if c.len() == 0 {
        Seq::empty()
    } else {
        match c[0] {
            Candidate::Valid(h) => {
                if prev is Some && !chains_to(prev->0, h@) {
                    Seq::empty()
                } else {
                    seq![h@] + accept_from(c.drop_first(), Some((h.number, h.hash)))
                }
            },
            _ => accept_from(c.drop_first(), prev),
        }
    }
}

/// The headers accepted from a whole response.
pub open spec fn accepted(c: Seq<Candidate>) -> Seq<HeaderView> {
    accept_from(c, None)
}

/// The number of the last header of `s`, or 0 when there is none.
pub open spec fn highest_of(s: Seq<HeaderView>) -> u64 {
    if s.len() > 0 {
        s.last().number
    } else {
        0
    }
}

pub open spec fn views(hs: Seq<RawHeader>) -> Seq<HeaderView> {
    hs.map_values(|h: RawHeader| h@)
}

/// Turns the candidates of a response into the ordered run of accepted
/// headers and the number of the last of them (0 when none is accepted).
pub fn validate_headers(candidates: &Vec<Candidate>) -> (r: (Vec<RawHeader>, u64))
    ensures
        views(r.0@) == accepted(candidates@),
        r.1 == highest_of(accepted(candidates@)),
{
    let ghost c = candidates@;
    let mut out: Vec<RawHeader> = Vec::new();
    let mut prev: Option<(u64, Digest)> = None;
    let mut highest: u64 = 0;
    let mut stopped = false;
    let mut i: usize = 0;
    assert(c.subrange(0, c.len() as int) =~= c);
    assert(views(out@) =~= Seq::<HeaderView>::empty());
    while i < candidates.len() && !stopped
        invariant
            c == candidates@,
            i <= c.len(),
            views(out@) + (if stopped {
                Seq::empty()
            } else {
                accept_from(c.subrange(i as int, c.len() as int), prev)
            }) == accepted(c),
            highest == highest_of(views(out@)),
            out@.len() == 0 ==> prev is None,
            prev is Some ==> prev.unwrap().0 == highest,
        decreases c.len() - i,
    {
        let ghost rest = c.subrange(i as int, c.len() as int);
        assert(rest.drop_first() =~= c.subrange(i + 1, c.len() as int));
        match &candidates[i] {
            Candidate::Valid(h) => {
                let breaks = match prev {
                    Some(p) => p.0 == u64::MAX || h.number != p.0 + 1 || h.parent_hash != p.1,
                    None => false,
                };
                if breaks {
                    stopped = true;
                } else {
                    let ghost before = views(out@);
                    out.push(h.clone_header());
                    assert(views(out@) =~= before + seq![h@]);
                    highest = h.number;
                    prev = Some((h.number, h.hash));
                }
            },
            _ => {},
        }
        i = i + 1;
    }
    if !stopped {
        assert(c.subrange(i as int, c.len() as int) =~= Seq::<Candidate>::empty());
    }
    assert(views(out@) =~= accepted(c));
    (out, highest)
}

/// The header a candidate carries, for candidates that passed the checks.
pub open spec fn candidate_view(x: Candidate) -> HeaderView {
    match x {
        Candidate::Valid(h) => h@,
        _ => arbitrary(),
    }
}

/// Number and hash of a header: what its successor must refer to.
pub open spec fn link_of(h: HeaderView) -> (u64, Digest) {
    (h.number, h.hash)
}

/// Whether each header of `s` follows the one before it.
pub open spec fn is_chain(s: Seq<HeaderView>) -> bool {
    forall|j: int| 0 < j < s.len() ==> chains_to(link_of(s[j - 1]), #[trigger] s[j])
}

/// Whether the first `k` candidates of `c` all passed the checks and each
/// follows the one before it.
pub open spec fn valid_run(c: Seq<Candidate>, k: int) -> bool {
    &&& 0 <= k <= c.len()
    &&& forall|j: int| 0 <= j < k ==> #[trigger] c[j] is Valid
    &&& forall|j: int|
        0 < j < k ==> chains_to(link_of(candidate_view(c[j - 1])), candidate_view(#[trigger] c[j]))
}

pub open spec fn candidate_views(c: Seq<Candidate>) -> Seq<HeaderView> {
    c.map_values(|x: Candidate| candidate_view(x))
}

proof fn lemma_accept_run(c: Seq<Candidate>, prev: Option<(u64, Digest)>, k: int)
    requires
        valid_run(c, k),
        k > 0 && prev is Some ==> chains_to(prev->0, candidate_view(c[0])),
    ensures
        accept_from(c, prev) == candidate_views(c.subrange(0, k)) + accept_from(
            c.subrange(k, c.len() as int),
            if k == 0 {
                prev
            } else {
                Some(link_of(candidate_view(c[k - 1])))
            },
        ),
    decreases k,
{
    if k == 0 {
        assert(c.subrange(0, c.len() as int) =~= c);
        assert(candidate_views(c.subrange(0, 0)) =~= Seq::<HeaderView>::empty());
    } else {
        let h = candidate_view(c[0]);
        let t = c.drop_first();
        assert forall|j: int| 0 < j < k - 1 implies chains_to(
            link_of(candidate_view(t[j - 1])),
            candidate_view(#[trigger] t[j]),
        ) by {
            assert(c[j + 1] == t[j]);
            assert(c[j] == t[j - 1]);
        }
        assert forall|j: int| 0 <= j < k - 1 implies #[trigger] t[j] is Valid by {
            assert(c[j + 1] is Valid);
        }
        if k > 1 {
            assert(c[1] is Valid);
        }
        lemma_accept_run(t, Some(link_of(h)), k - 1);
        assert(c[0] is Valid);
        assert(t.subrange(k - 1, t.len() as int) =~= c.subrange(k, c.len() as int));
        assert(candidate_views(c.subrange(0, k)) =~= seq![h] + candidate_views(
            t.subrange(0, k - 1),
        ));
        if k > 1 {
            assert(t[k - 2] == c[k - 1]);
        }
    }
}

/// A response whose headers all pass the checks and each follow the one
/// before is accepted whole, and its highest number is that of its last
/// header.
pub proof fn lemma_valid_chain_accepted(c: Seq<Candidate>)
    requires
        valid_run(c, c.len() as int),
    ensures
        accepted(c) == candidate_views(c),
        c.len() > 0 ==> highest_of(accepted(c)) == candidate_view(c.last()).number,
{
    lemma_accept_run(c, None, c.len() as int);
    assert(c.subrange(0, c.len() as int) =~= c);
    assert(c.subrange(c.len() as int, c.len() as int) =~= Seq::<Candidate>::empty());
    assert(accept_from(Seq::<Candidate>::empty(), None) =~= Seq::<HeaderView>::empty());
    assert(accepted(c) =~= candidate_views(c));
}

proof fn lemma_skip_from(c: Seq<Candidate>, prev: Option<(u64, Digest)>, i: int)
    requires
        0 <= i < c.len(),
        !(c[i] is Valid),
    ensures
        accept_from(c, prev) == accept_from(c.remove(i), prev),
    decreases i,
{
    if i == 0 {
        assert(c.remove(0) =~= c.drop_first());
    } else {
        assert(c.remove(i).drop_first() =~= c.drop_first().remove(i - 1));
        assert(c.remove(i)[0] == c[0]);
        match c[0] {
            Candidate::Valid(h) => {
                lemma_skip_from(c.drop_first(), Some((h.number, h.hash)), i - 1);
            },
            _ => {
                lemma_skip_from(c.drop_first(), prev, i - 1);
            },
        }
    }
}

/// A header that did not decode or failed the structural check leaves the
/// outcome as if it were not in the response at all.
pub proof fn lemma_invalid_skipped(c: Seq<Candidate>, i: int)
    requires
        0 <= i < c.len(),
        !(c[i] is Valid),
    ensures
        accepted(c) == accepted(c.remove(i)),
{
    lemma_skip_from(c, None, i);
}

/// A header that failed its checks, between headers that pass theirs and
/// chain once it is taken out, does not stop the batch: every other header
/// is accepted, the one after it included.
pub proof fn lemma_invalid_header_skipped(c: Seq<Candidate>, i: int)
    requires
        0 <= i < c.len(),
        !(c[i] is Valid),
        valid_run(c.remove(i), c.len() - 1),
    ensures
        accepted(c) == candidate_views(c.remove(i)),
{
    lemma_invalid_skipped(c, i);
    lemma_valid_chain_accepted(c.remove(i));
}

/// A header that passes its checks but breaks the chain at position `i`
/// ends the batch: only the headers before it are accepted, whatever
/// follows.
pub proof fn lemma_break_truncates(c: Seq<Candidate>, i: int)
    requires
        0 < i < c.len(),
        valid_run(c, i),
        c[i] is Valid,
        !chains_to(link_of(candidate_view(c[i - 1])), candidate_view(c[i])),
    ensures
        accepted(c) == candidate_views(c.subrange(0, i)),
{
    lemma_accept_run(c, None, i);
    let rest = c.subrange(i, c.len() as int);
    assert(rest[0] == c[i]);
    assert(accept_from(rest, Some(link_of(candidate_view(c[i - 1])))) =~= Seq::<HeaderView>::empty());
    assert(accepted(c) =~= candidate_views(c.subrange(0, i)));
}

/// The accepted headers form a chain, and the first follows `prev`.
pub proof fn lemma_accepted_is_chain(c: Seq<Candidate>, prev: Option<(u64, Digest)>)
    ensures
        is_chain(accept_from(c, prev)),
        prev is Some && accept_from(c, prev).len() > 0 ==> chains_to(
            prev->0,
            accept_from(c, prev)[0],
        ),
    decreases c.len(),
{
    if c.len() > 0 {
        match c[0] {
            Candidate::Valid(h) => {
                let t = accept_from(c.drop_first(), Some((h.number, h.hash)));
                lemma_accepted_is_chain(c.drop_first(), Some((h.number, h.hash)));
                if !(prev is Some && !chains_to(prev->0, h@)) {
                    let s = seq![h@] + t;
                    assert forall|j: int| 0 < j < s.len() implies chains_to(
                        link_of(s[j - 1]),
                        #[trigger] s[j],
                    ) by {
                        if j > 1 {
                            assert(s[j] == t[j - 1]);
                            assert(s[j - 1] == t[j - 2]);
                        }
                    }
                }
            },
            _ => {
                lemma_accepted_is_chain(c.drop_first(), prev);
            },
        }
    }
}

/// A run of accepted headers, as handed to the pending-response store:
/// the peer that sent it, the headers, when they arrived (milliseconds
/// since the epoch) and the number of the last of them.
pub struct AcceptedBatch {
    pub peer_key: u64,
    pub headers: Vec<RawHeader>,
    pub received_at: u64,
    pub highest_number: u64,
}

/// A batch is non-empty, its headers form a chain, and it is keyed by the
/// number of its last header.
pub open spec fn batch_wf(b: AcceptedBatch) -> bool {
    let hs = views(b.headers@);
    &&& hs.len() > 0
    &&& is_chain(hs)
    &&& b.highest_number == hs.last().number
}

/// Handles the candidates of a response from peer `hash` received at `now`:
/// the accepted run as a batch for the store, or `None` when no header was
/// accepted.
pub fn receive_res(hash: u64, candidates: &Vec<Candidate>, now: u64) -> (r: Option<AcceptedBatch>)
    ensures
        r is None <==> accepted(candidates@).len() == 0,
        r matches Some(b) ==> {
            &&& views(b.headers@) == accepted(candidates@)
            &&& b.peer_key == hash
            &&& b.received_at == now
            &&& b.highest_number == highest_of(accepted(candidates@))
            &&& batch_wf(b)
        },
{
    let (headers, highest) = validate_headers(candidates);
    proof {
        lemma_accepted_is_chain(candidates@, None);
        assert(views(headers@).len() == headers@.len());
    }
    if headers.len() == 0 {
        None
    } else {
        Some(AcceptedBatch { peer_key: hash, headers, received_at: now, highest_number: highest })
    }
}

} // verus!
