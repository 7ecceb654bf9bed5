use std::sync::Arc;
use vstd::prelude::*;

use crate::score::{parse_i64, parse_i64_spec};

verus! {

/// Declares `redis::Client` (the ranked store's connection factory) so that `RedisCache` can
/// hold it. Nothing about its contents or behaviour is assumed: it is only carried.
#[verifier::external_type_specification]
#[verifier::external_body]
pub struct ExRedisClient(redis::Client);

/// Why a flat `[token, score, token, score, ...]` reply could not be paired up.
#[derive(Debug, Clone, Copy, PartialEq, Eq, Structural)]
pub enum GroupError {
    /// The reply has an odd number of entries.
    OddLength { len: usize },
    /// The entry at `index` (a score position) is not a decimal integer.
    BadScore { index: usize },
}

/// `pairs` is the pairing of the well-formed reply `flat`.
pub open spec fn grouped(flat: Seq<String>, pairs: Seq<(String, i64)>) -> bool {
    &&& flat.len() % 2 == 0
    &&& pairs.len() * 2 == flat.len()
    &&& forall|k: int|
        0 <= k < pairs.len() ==> (#[trigger] pairs[k]).0@ == flat[2 * k]@ && parse_i64_spec(
            flat[2 * k + 1]@,
        ) == Some(pairs[k].1)
}

/// The error that pairing `flat` reports: odd length first, else the first unparsable score.
pub open spec fn group_failure(flat: Seq<String>, e: GroupError) -> bool {
    match e {
        GroupError::OddLength { len } => flat.len() % 2 == 1 && len == flat.len(),
        GroupError::BadScore { index } => {
            &&& flat.len() % 2 == 0
            &&& index % 2 == 1
            &&& index < flat.len()
            &&& parse_i64_spec(flat[index as int]@) is None
            &&& forall|j: int|
                0 <= j < index && j % 2 == 1 ==> parse_i64_spec(#[trigger] flat[j]@) is Some
        },
    }
}

/// Whether every score position of `flat` holds a decimal integer.
pub open spec fn scores_parse(flat: Seq<String>) -> bool {
    forall|j: int| 0 <= j < flat.len() && j % 2 == 1 ==> parse_i64_spec(#[trigger] flat[j]@) is Some
}

/// The number of entries that a top-N request asks for: `None` where it asks for all.
pub open spec fn requested_limit(n: Option<i64>) -> Option<nat> {
    match n {
        Some(k) => if k > 0 {
            Some(k as nat)
        } else {
            None
        },
        None => None,
    }
}

/// Handle on the ranked store, shared by the ingest loop and the query service.
#[derive(Clone)]
pub struct RedisCache {
    client: Arc<redis::Client>,
}

impl RedisCache {
    pub closed spec fn connection(&self) -> Arc<redis::Client> {
        self.client
    }

    pub fn new(connection: Arc<redis::Client>) -> (r: Self)
        ensures
            r.connection() == connection,
    {
        RedisCache { client: connection }
    }

    /// The store connection this cache talks through.
    pub fn client(&self) -> (r: &Arc<redis::Client>)
        ensures
            *r == self.connection(),
    {
        &self.client
    }

    /// The last rank (inclusive, counting from 0) of a descending range read for a top-`n`
    /// request; -1 stands for "to the end". `None`, 0 and negative `n` all ask for every entry.
    pub fn range_stop(n: Option<i64>) -> (r: i64)
        ensures
            requested_limit(n) is None ==> r == -1,
            requested_limit(n) matches Some(k) ==> r == k - 1,
    {
        match n {
            Some(k) => if k > 0 {
                k - 1
            } else {
                -1
            },
            None => -1,
        }
    }

    /// Pairs a flat `[token, score, token, score, ...]` reply into (token, score) entries,
    /// keeping its order.
    pub fn group_counts(counts: Vec<String>) -> (r: Result<Vec<(String, i64)>, GroupError>)
        ensures
            r matches Ok(pairs) ==> grouped(counts@, pairs@),
            r matches Err(e) ==> group_failure(counts@, e),
            r is Ok <==> (counts@.len() % 2 == 0 && scores_parse(counts@)),
    {
        let len = counts.len();
        if len % 2 == 1 {
            return Err(GroupError::OddLength { len });
        }
        let mut pairs: Vec<(String, i64)> = Vec::new();
        let mut k: usize = 0;
        while k < len / 2
            invariant
                len == counts@.len(),
                len % 2 == 0,
                k <= len / 2,
                pairs@.len() == k,
                forall|i: int|
                    0 <= i < k ==> (#[trigger] pairs@[i]).0@ == counts@[2 * i]@ && parse_i64_spec(
                        counts@[2 * i + 1]@,
                    ) == Some(pairs@[i].1),
                forall|j: int|
                    0 <= j < 2 * k && j % 2 == 1 ==> parse_i64_spec(#[trigger] counts@[j]@) is Some,
            decreases len / 2 - k,
        {
            let score = parse_i64(counts[2 * k + 1].as_str());
            match score {
                Some(v) => {
                    let token = counts[2 * k].clone();
                    let ghost before = pairs@;
                    pairs.push((token, v));
                    proof {
                        assert forall|i: int| 0 <= i < k + 1 implies (#[trigger] pairs@[i]).0@
                            == counts@[2 * i]@ && parse_i64_spec(counts@[2 * i + 1]@) == Some(
                            pairs@[i].1,
                        ) by {
                            if i < k {
                                assert(pairs@[i] == before[i]);
                            }
                        }
                        assert forall|j: int| 0 <= j < 2 * (k + 1) && j % 2 == 1 implies parse_i64_spec(
                            #[trigger] counts@[j]@,
                        ) is Some by {
                            if j == 2 * k + 1 {
                            } else {
                                assert(j < 2 * k);
                            }
                        }
                    }
                },
                None => {
                    return Err(GroupError::BadScore { index: 2 * k + 1 });
                },
            }
            k = k + 1;
        }
        Ok(pairs)
    }

    /// Pairs a top-`n` reply and keeps at most the requested number of entries, so that the
    /// bound holds whatever the store returned. `None`, 0 and negative `n` keep every entry.
    pub fn top_n_from_reply(reply: Vec<String>, n: Option<i64>) -> (r: Result<
        Vec<(String, i64)>,
        GroupError,
    >)
        ensures
            r matches Err(e) ==> group_failure(reply@, e),
            r is Ok <==> (reply@.len() % 2 == 0 && scores_parse(reply@)),
            r matches Ok(pairs) ==> {
                let all = reply@.len() / 2;
                &&& pairs@.len() == match requested_limit(n) {
                    Some(lim) => if lim < all {
                        lim as int
                    } else {
                        all as int
                    },
                    None => all as int,
                }
                &&& grouped(reply@.take(2 * pairs@.len() as int), pairs@)
            },
    {
        let grouped_pairs = Self::group_counts(reply);
        match grouped_pairs {
            Ok(mut pairs) => {
                let ghost full = pairs@;
                if let Some(k) = n {
                    if k > 0 && (k as u64) < pairs.len() as u64 {
                        pairs.truncate(k as usize);
                    }
                }
                proof {
                    let m = pairs@.len() as int;
                    let sub = reply@.take(2 * m);
                    assert forall|i: int| 0 <= i < m implies (#[trigger] pairs@[i]).0@ == sub[2 * i]@
                        && parse_i64_spec(sub[2 * i + 1]@) == Some(pairs@[i].1) by {
                        assert(pairs@[i] == full[i]);
                        assert(sub[2 * i] == reply@[2 * i]);
                        assert(sub[2 * i + 1] == reply@[2 * i + 1]);
                    }
                }
                Ok(pairs)
            },
            Err(e) => Err(e),
        }
    }
}

/// One token whose score increment the store did not apply.
#[derive(Debug)]
pub struct FailedIncrement {
    pub token: String,
    pub reason: String,
}

/// The (token, reason) pairs of the increments that failed, in order.
pub open spec fn failed_increments(tokens: Seq<Seq<char>>, outcomes: Seq<Option<String>>) -> Seq<
    (Seq<char>, Seq<char>),
>
    decreases outcomes.len(),
{
    if outcomes.len() == 0 || tokens.len() == 0 {
        Seq::empty()
    } else {
        let prev = failed_increments(tokens.drop_last(), outcomes.drop_last());
        match outcomes.last() {
            Some(m) => prev.push((tokens.last(), m@)),
            None => prev,
        }
    }
}

/// Reads the outcome of one increment per token (`None` where it was applied, the store's
/// message where it failed) and reports every failing token, none of which is retried.
pub fn summarize_increments(entries: &Vec<(String, usize)>, outcomes: &Vec<Option<String>>) -> (r:
    Result<(), Vec<FailedIncrement>>)
    requires
        entries@.len() == outcomes@.len(),
    ensures
        r is Ok <==> forall|i: int| 0 <= i < outcomes@.len() ==> (#[trigger] outcomes@[i]) is None,
        r matches Err(f) ==> f@.map_values(|x: FailedIncrement| (x.token@, x.reason@))
            == failed_increments(entries@.map_values(|e: (String, usize)| e.0@), outcomes@),
{
    let ghost toks = entries@.map_values(|e: (String, usize)| e.0@);
    let mut failed: Vec<FailedIncrement> = Vec::new();
    let mut i: usize = 0;
    while i < outcomes.len()
        invariant
            entries@.len() == outcomes@.len(),
            toks == entries@.map_values(|e: (String, usize)| e.0@),
            i <= outcomes@.len(),
            failed@.map_values(|x: FailedIncrement| (x.token@, x.reason@)) == failed_increments(
                toks.take(i as int),
                outcomes@.take(i as int),
            ),
            failed@.len() == 0 <==> forall|j: int| 0 <= j < i ==> (#[trigger] outcomes@[j]) is None,
        decreases outcomes@.len() - i,
    {
        let ghost before = failed@;
        proof {
            assert(toks.take(i + 1).drop_last() =~= toks.take(i as int));
            assert(outcomes@.take(i + 1).drop_last() =~= outcomes@.take(i as int));
            assert(toks.take(i + 1).last() == entries@[i as int].0@);
            assert(outcomes@.take(i + 1).last() == outcomes@[i as int]);
        }
        match &outcomes[i] {
            Some(m) => {
                failed.push(FailedIncrement { token: entries[i].0.clone(), reason: m.clone() });
                proof {
                    assert(failed@.map_values(|x: FailedIncrement| (x.token@, x.reason@))
                        =~= before.map_values(|x: FailedIncrement| (x.token@, x.reason@)).push(
                        (toks[i as int], m@),
                    ));
                }
            },
            None => {},
        }
        i = i + 1;
    }
    proof {
        assert(toks.take(outcomes@.len() as int) =~= toks);
        assert(outcomes@.take(outcomes@.len() as int) =~= outcomes@);
    }
    if failed.len() == 0 {
        Ok(())
    } else {
        Err(failed)
    }
}

/// A model of one topic's ranked set: token to score; an absent token scores 0.
pub open spec fn score_of(scores: Map<Seq<char>, int>, t: Seq<char>) -> int {
    if scores.contains_key(t) {
        scores[t]
    } else {
        0
    }
}

pub open spec fn delta_of(deltas: Map<Seq<char>, nat>, t: Seq<char>) -> int {
    if deltas.contains_key(t) {
        deltas[t] as int
    } else {
        0
    }
}

/// The ranked set after each (token, count) of `deltas` was added to the token's score.
pub open spec fn apply_deltas(scores: Map<Seq<char>, int>, deltas: Map<Seq<char>, nat>) -> Map<
    Seq<char>,
    int,
> {
    Map::new(
        |t: Seq<char>| scores.contains_key(t) || deltas.contains_key(t),
        |t: Seq<char>| score_of(scores, t) + delta_of(deltas, t),
    )
}

/// Increments commute: two batches of deltas give the same ranked set in either order, and
/// each token's score is the sum of all deltas applied to it.
pub proof fn lemma_increments_commute(
    scores: Map<Seq<char>, int>,
    first: Map<Seq<char>, nat>,
    second: Map<Seq<char>, nat>,
)
    ensures
        apply_deltas(apply_deltas(scores, first), second) == apply_deltas(
            apply_deltas(scores, second),
            first,
        ),
        forall|t: Seq<char>|
            #[trigger] score_of(apply_deltas(apply_deltas(scores, first), second), t) == score_of(
                scores,
                t,
            ) + delta_of(first, t) + delta_of(second, t),
{
    assert(apply_deltas(apply_deltas(scores, first), second) =~= apply_deltas(
        apply_deltas(scores, second),
        first,
    ));
}

} // verus!
