use vstd::prelude::*;

verus! {

/// Unicode `White_Space` characters, the separators that `char::is_whitespace` recognises.
pub open spec fn is_space(c: char) -> bool {
    let u = c as u32;
    (0x09 <= u && u <= 0x0d) || u == 0x20 || u == 0x85 || u == 0xa0 || u == 0x1680 || (0x2000
        <= u && u <= 0x200a) || u == 0x2028 || u == 0x2029 || u == 0x202f || u == 0x205f || u
        == 0x3000
}

/// The maximal runs of non-whitespace characters of `s`, in order.
pub open spec fn words(s: Seq<char>) -> Seq<Seq<char>>
    decreases s.len(),
{
    if s.len() == 0 {
        Seq::empty()
    } else {
        let prev = words(s.drop_last());
        let c = s.last();
        if is_space(c) {
            prev
        } else if s.len() >= 2 && !is_space(s[s.len() - 2]) {
            prev.drop_last().push(prev.last().push(c))
        } else {
            prev.push(seq![c])
        }
    }
}

/// How many times `t` occurs in `ws`.
pub open spec fn occurrences(ws: Seq<Seq<char>>, t: Seq<char>) -> nat
    decreases ws.len(),
{
    if ws.len() == 0 {
        0
    } else {
        occurrences(ws.drop_last(), t) + if ws.last() == t {
            1nat
        } else {
            0nat
        }
    }
}

/// The token-count mapping of a word sequence: each distinct word with its number of occurrences.
pub open spec fn count_map(ws: Seq<Seq<char>>) -> Map<Seq<char>, nat> {
    Map::new(|t: Seq<char>| ws.contains(t), |t: Seq<char>| occurrences(ws, t))
}

/// The token counts of a payload: `count_map(words(payload))`.
pub open spec fn tokenize_spec(payload: Seq<char>) -> Map<Seq<char>, nat> {
    count_map(words(payload))
}

pub fn is_space_char(c: char) -> (r: bool)
    ensures
        r == is_space(c),
{
    let u = c as u32;
    (0x09 <= u && u <= 0x0d) || u == 0x20 || u == 0x85 || u == 0xa0 || u == 0x1680 || (0x2000
        <= u && u <= 0x200a) || u == 0x2028 || u == 0x2029 || u == 0x202f || u == 0x205f || u
        == 0x3000
}

proof fn lemma_words_step(s: Seq<char>, i: int)
    requires
        0 <= i < s.len(),
    ensures
        words(s.take(i + 1)) == if is_space(s[i]) {
            words(s.take(i))
        } else if i >= 1 && !is_space(s[i - 1]) {
            words(s.take(i)).drop_last().push(words(s.take(i)).last().push(s[i]))
        } else {
            words(s.take(i)).push(seq![s[i]])
        },
{
    let t = s.take(i + 1);
    assert(t.drop_last() =~= s.take(i));
    if i >= 1 {
        assert(t[t.len() - 2] == s[i - 1]);
    }
}

/// Splits `s` into its whitespace-separated words.
pub fn split_words(s: &str) -> (r: Vec<String>)
    ensures
        r@.map_values(|w: String| w@) == words(s@),
{
    let n = s.unicode_len();
    let mut out: Vec<String> = Vec::new();
    let mut start: usize = 0;
    let mut in_word = false;
    let mut i: usize = 0;
    while i < n
        invariant
            n == s@.len(),
            i <= n,
            start <= i,
            in_word ==> start < i,
            in_word ==> words(s@.take(i as int)) == out@.map_values(|w: String| w@).push(
                s@.subrange(start as int, i as int),
            ),
            !in_word ==> words(s@.take(i as int)) == out@.map_values(|w: String| w@),
            in_word <==> (i >= 1 && !is_space(s@[i - 1])),
        decreases n - i,
    {
        let c = s.get_char(i);
        proof {
            lemma_words_step(s@, i as int);
        }
        if is_space_char(c) {
            if in_word {
                let ghost before = out@;
                let w = s.substring_char(start, i).to_owned();
                out.push(w);
                proof {
                    assert(out@.map_values(|w: String| w@) =~= before.map_values(|w: String| w@).push(
                        s@.subrange(start as int, i as int),
                    ));
                }
            }
            in_word = false;
        } else {
            if !in_word {
                start = i;
                in_word = true;
            }
            proof {
                let m = out@.map_values(|w: String| w@);
                let cur = s@.subrange(start as int, i as int);
                assert(s@.subrange(start as int, i + 1) =~= cur.push(c));
                if start == i {
                    assert(cur.push(c) =~= seq![c]);
                } else {
                    assert(m.push(cur).drop_last() =~= m);
                    assert(m.push(cur).last() == cur);
                }
            }
        }
        i = i + 1;
    }
    if in_word {
        let ghost before = out@;
        let w = s.substring_char(start, n).to_owned();
        out.push(w);
        proof {
            assert(out@.map_values(|w: String| w@) =~= before.map_values(|w: String| w@).push(
                s@.subrange(start as int, n as int),
            ));
        }
    }
    proof {
        assert(s@.take(n as int) =~= s@);
    }
    out
}

} // verus!

verus! {

proof fn lemma_occurrences_bound(ws: Seq<Seq<char>>, t: Seq<char>)
    ensures
        occurrences(ws, t) <= ws.len(),
    decreases ws.len(),
{
    if ws.len() > 0 {
        lemma_occurrences_bound(ws.drop_last(), t);
    }
}

pub(crate) proof fn lemma_occurrences_zero(ws: Seq<Seq<char>>, t: Seq<char>)
    requires
        !ws.contains(t),
    ensures
        occurrences(ws, t) == 0,
    decreases ws.len(),
{
    if ws.len() > 0 {
        assert(!ws.drop_last().contains(t)) by {
            if ws.drop_last().contains(t) {
                let k = choose|k: int| 0 <= k < ws.drop_last().len() && ws.drop_last()[k] == t;
                assert(ws[k] == t);
            }
        }
        assert(ws.last() != t) by {
            assert(ws[ws.len() - 1] == ws.last());
        }
        lemma_occurrences_zero(ws.drop_last(), t);
    }
}

/// The per-message token counts: each distinct token once, in order of first occurrence,
/// with its positive count.
#[derive(Debug)]
pub struct TokenCounts {
    tokens: Vec<String>,
    counts: Vec<usize>,
}

impl View for TokenCounts {
    type V = Map<Seq<char>, nat>;

    /// The token-to-count mapping.
    closed spec fn view(&self) -> Map<Seq<char>, nat> {
        Map::new(|t: Seq<char>| self.has(t), |t: Seq<char>| self.counts@[self.index_of(t)] as nat)
    }
}

impl TokenCounts {
    pub closed spec fn wf(&self) -> bool {
        &&& self.tokens@.len() == self.counts@.len()
        &&& forall|i: int, j: int|
            0 <= i < j < self.tokens@.len() ==> self.tokens@[i]@ != self.tokens@[j]@
        &&& forall|i: int| 0 <= i < self.counts@.len() ==> self.counts@[i] > 0
    }

    pub closed spec fn has(&self, t: Seq<char>) -> bool {
        exists|i: int| 0 <= i < self.tokens@.len() && self.tokens@[i]@ == t
    }

    pub closed spec fn index_of(&self, t: Seq<char>) -> int {
        choose|i: int| 0 <= i < self.tokens@.len() && self.tokens@[i]@ == t
    }

    /// The tokens in order of first occurrence.
    pub closed spec fn token_seq(&self) -> Seq<Seq<char>> {
        self.tokens@.map_values(|w: String| w@)
    }

    /// The number of distinct tokens.
    pub fn len(&self) -> (r: usize)
        requires
            self.wf(),
        ensures
            r == self@.dom().len(),
            r == self.token_seq().len(),
    {
        proof {
            self.lemma_dom_len();
        }
        self.tokens.len()
    }

    proof fn lemma_dom_len(&self)
        requires
            self.wf(),
        ensures
            self@.dom().len() == self.tokens@.len(),
            self@.dom() == self.token_seq().to_set(),
    {
        let ts = self.token_seq();
        assert(self@.dom() =~= ts.to_set()) by {
            assert forall|t: Seq<char>| self@.dom().contains(t) implies ts.to_set().contains(t) by {
                let i = self.index_of(t);
                assert(ts[i] == t);
            }
            assert forall|t: Seq<char>| ts.to_set().contains(t) implies self@.dom().contains(t) by {
                let i = choose|i: int| 0 <= i < ts.len() && ts[i] == t;
                assert(self.tokens@[i]@ == t);
            }
        }
        assert(ts.no_duplicates());
        ts.unique_seq_to_set();
    }

    /// The count of `token`, or 0 where it does not occur.
    pub fn get(&self, token: &str) -> (r: usize)
        requires
            self.wf(),
        ensures
            r == if self@.contains_key(token@) {
                self@[token@]
            } else {
                0
            },
    {
        let wanted = token.to_owned();
        let mut k: usize = 0;
        while k < self.tokens.len()
            invariant
                self.wf(),
                wanted@ == token@,
                k <= self.tokens@.len(),
                forall|i: int| 0 <= i < k ==> self.tokens@[i]@ != token@,
            decreases self.tokens@.len() - k,
        {
            if self.tokens[k] == wanted {
                proof {
                    let j = self.index_of(token@);
                    assert(self.has(token@));
                    assert(j == k as int);
                }
                return self.counts[k];
            }
            k = k + 1;
        }
        0
    }

    /// The entries as (token, count) pairs, in order of first occurrence.
    pub fn entries(&self) -> (r: Vec<(String, usize)>)
        requires
            self.wf(),
        ensures
            r@.len() == self.token_seq().len(),
            forall|i: int|
                0 <= i < r@.len() ==> r@[i].0@ == self.token_seq()[i] && r@[i].1 as nat
                    == self@[self.token_seq()[i]],
    {
        let mut out: Vec<(String, usize)> = Vec::new();
        let mut k: usize = 0;
        while k < self.tokens.len()
            invariant
                self.wf(),
                k <= self.tokens@.len(),
                out@.len() == k,
                forall|i: int| 0 <= i < k ==> #[trigger] out@[i].0@ == self.tokens@[i]@,
                forall|i: int| 0 <= i < k ==> #[trigger] out@[i].1 == self.counts@[i],
            decreases self.tokens@.len() - k,
        {
            let t = self.tokens[k].clone();
            let c = self.counts[k];
            let ghost before = out@;
            out.push((t, c));
            proof {
                assert(out@[k as int].0@ == self.tokens@[k as int]@);
                assert(out@[k as int].1 == self.counts@[k as int]);
                assert forall|i: int| 0 <= i < k + 1 implies #[trigger] out@[i].0@ == self.tokens@[i]@
                    && out@[i].1 == self.counts@[i] by {
                    if i < k {
                        assert(out@[i] == before[i]);
                        assert(before[i].0@ == self.tokens@[i]@);
                    }
                }
            }
            k = k + 1;
        }
        proof {
            assert forall|i: int| 0 <= i < out@.len() implies out@[i].0@ == self.token_seq()[i]
                && out@[i].1 as nat == self@[self.token_seq()[i]] by {
                let t = self.tokens@[i]@;
                assert(self.token_seq()[i] == t);
                assert(self.has(t));
                let j = self.index_of(t);
                assert(0 <= j < self.tokens@.len() && self.tokens@[j]@ == t);
                assert(j == i);
                assert(self@[t] == self.counts@[i] as nat);
            }
        }
        out
    }
}

fn find_token(tokens: &Vec<String>, w: &String) -> (r: Option<usize>)
    ensures
        r matches Some(k) ==> k < tokens@.len() && tokens@[k as int]@ == w@,
        r is None ==> forall|i: int| 0 <= i < tokens@.len() ==> tokens@[i]@ != w@,
{
    let mut k: usize = 0;
    while k < tokens.len()
        invariant
            k <= tokens@.len(),
            forall|i: int| 0 <= i < k ==> tokens@[i]@ != w@,
        decreases tokens@.len() - k,
    {
        if tokens[k] == *w {
            return Some(k);
        }
        k = k + 1;
    }
    None
}

/// Splits `payload` on runs of whitespace and counts each token's occurrences.
pub fn tokenize(payload: &str) -> (r: TokenCounts)
    ensures
        r.wf(),
        r@ == tokenize_spec(payload@),
        r.token_seq().to_set() == words(payload@).to_set(),
{
    let ws = split_words(payload);
    let ghost wseq = words(payload@);
    let mut tokens: Vec<String> = Vec::new();
    let mut counts: Vec<usize> = Vec::new();
    let mut j: usize = 0;
    while j < ws.len()
        invariant
            ws@.map_values(|w: String| w@) == wseq,
            j <= ws@.len(),
            tokens@.len() == counts@.len(),
            forall|a: int, b: int| 0 <= a < b < tokens@.len() ==> tokens@[a]@ != tokens@[b]@,
            forall|a: int|
                0 <= a < counts@.len() ==> counts@[a] > 0 && counts@[a] as nat == occurrences(
                    wseq.take(j as int),
                    tokens@[a]@,
                ),
            forall|t: Seq<char>|
                wseq.take(j as int).contains(t) <==> exists|a: int|
                    0 <= a < tokens@.len() && tokens@[a]@ == t,
        decreases ws@.len() - j,
    {
        let w = &ws[j];
        let ghost pre = wseq.take(j as int);
        let ghost post = wseq.take(j + 1);
        proof {
            assert(post.drop_last() =~= pre);
            assert(post.last() == w@);
            assert(wseq[j as int] == w@);
            assert forall|t: Seq<char>| post.contains(t) <==> (pre.contains(t) || t == w@) by {
                if post.contains(t) && t != w@ {
                    let k = choose|k: int| 0 <= k < post.len() && post[k] == t;
                    assert(pre[k] == t);
                }
                if pre.contains(t) {
                    let k = choose|k: int| 0 <= k < pre.len() && pre[k] == t;
                    assert(post[k] == t);
                }
                if t == w@ {
                    assert(post[j as int] == t);
                }
            }
        }
        let found = find_token(&tokens, w);
        if let Some(k) = found {
            proof {
                lemma_occurrences_bound(pre, w@);
            }
            let c = counts[k];
            counts.set(k, c + 1);
            proof {
                assert forall|t: Seq<char>| post.contains(t) implies exists|a: int|
                    0 <= a < tokens@.len() && tokens@[a]@ == t by {
                    if t != w@ {
                        assert(pre.contains(t));
                    } else {
                        assert(tokens@[k as int]@ == t);
                    }
                }
            }
        } else {
            proof {
                assert(!pre.contains(w@));
                lemma_occurrences_zero(pre, w@);
            }
            let ghost old_tokens = tokens@;
            tokens.push(w.clone());
            counts.push(1);
            proof {
                let n = old_tokens.len() as int;
                assert(tokens@[n]@ == w@);
                assert forall|t: Seq<char>| post.contains(t) implies exists|a: int|
                    0 <= a < tokens@.len() && tokens@[a]@ == t by {
                    if t != w@ {
                        assert(pre.contains(t));
                        let a = choose|a: int| 0 <= a < old_tokens.len() && old_tokens[a]@ == t;
                        assert(tokens@[a]@ == t);
                    } else {
                        assert(tokens@[n]@ == t);
                    }
                }
                assert forall|t: Seq<char>| (exists|a: int|
                    0 <= a < tokens@.len() && tokens@[a]@ == t) implies post.contains(t) by {
                    let a = choose|a: int| 0 <= a < tokens@.len() && tokens@[a]@ == t;
                    if a < n {
                        assert(old_tokens[a]@ == t);
                        assert(pre.contains(t));
                    }
                }
            }
        }
        j = j + 1;
    }
    let r = TokenCounts { tokens, counts };
    proof {
        assert(wseq.take(ws@.len() as int) =~= wseq);
        assert forall|t: Seq<char>| r@.contains_key(t) <==> wseq.contains(t) by {
            assert(r@.contains_key(t) <==> r.has(t));
            assert(r.has(t) <==> exists|a: int| 0 <= a < r.tokens@.len() && r.tokens@[a]@ == t);
        }
        assert forall|t: Seq<char>| r@.contains_key(t) implies r@[t] == occurrences(wseq, t) by {
            assert(r.has(t));
            let i = r.index_of(t);
            assert(0 <= i < r.counts@.len() && r.tokens@[i]@ == t);
        }
        assert(r@ =~= count_map(wseq));
        r.lemma_dom_len();
    }
    r
}

} // verus!
