//! "Did you mean" suggestions by edit distance.
//!
//! The distance counts insertions, deletions, substitutions and swaps of two
//! neighbouring characters, each at cost one, character by character.

use vstd::prelude::*;
use vstd::string::*;

verus! {

/// The smaller of two numbers.
pub open spec fn least(x: int, y: int) -> int {
    if x <= y {
        x
    } else {
        y
    }
}

/// The distance between the first `i` characters of `a` and the first `j` of
/// `b`. An empty prefix is as far from the other as that one is long. Else the
/// last step is the cheapest of: delete the last character of `a`; insert the
/// last of `b`; put one for the other (free where they are equal); and, where
/// the last two of each are the other's in reverse, swap them.
pub open spec fn distance_at(a: Seq<char>, b: Seq<char>, i: int, j: int) -> int
    decreases i + j,
{
    if i <= 0 {
        if j <= 0 {
            0
        } else {
            j
        }
    } else if j <= 0 {
        i
    } else {
        let cost: int = if a[i - 1] == b[j - 1] {
            0
        } else {
            1
        };
        let plain = least(
            least(distance_at(a, b, i - 1, j) + 1, distance_at(a, b, i, j - 1) + 1),
            distance_at(a, b, i - 1, j - 1) + cost,
        );
        if i > 1 && j > 1 && a[i - 1] == b[j - 2] && a[i - 2] == b[j - 1] {
            least(plain, distance_at(a, b, i - 2, j - 2) + cost)
        } else {
            plain
        }
    }
}

/// The edit distance between two texts.
pub open spec fn distance_spec(a: Seq<char>, b: Seq<char>) -> int {
    distance_at(a, b, a.len() as int, b.len() as int)
}

/// Whether `pick` is the first of the candidates that is nearest to `input`.
pub open spec fn is_first_nearest(input: Seq<char>, candidates: Seq<Seq<char>>, pick: int) -> bool {
    &&& 0 <= pick < candidates.len()
    &&& forall|k: int|
        0 <= k < candidates.len() ==> distance_spec(input, candidates[pick]) <= distance_spec(
            input,
            #[trigger] candidates[k],
        )
    &&& forall|k: int|
        0 <= k < pick ==> distance_spec(input, candidates[pick]) < distance_spec(
            input,
            #[trigger] candidates[k],
        )
}

/// The texts of a list of strings.
pub open spec fn texts_of(names: Seq<String>) -> Seq<Seq<char>> {
    Seq::new(names.len(), |k: int| names[k]@)
}

/// The texts of a list of character vectors.
pub open spec fn words_of(words: Seq<Vec<char>>) -> Seq<Seq<char>> {
    Seq::new(words.len(), |k: int| words[k]@)
}

/// A distance is never negative and never more than the longer prefix.
pub proof fn lemma_distance_bounds(a: Seq<char>, b: Seq<char>, i: int, j: int)
    requires
        0 <= i,
        0 <= j,
    ensures
        0 <= distance_at(a, b, i, j),
        distance_at(a, b, i, j) <= i || distance_at(a, b, i, j) <= j,
    decreases i + j,
{
    if i > 0 && j > 0 {
        lemma_distance_bounds(a, b, i - 1, j);
        lemma_distance_bounds(a, b, i, j - 1);
        lemma_distance_bounds(a, b, i - 1, j - 1);
        if i > 1 && j > 1 {
            lemma_distance_bounds(a, b, i - 2, j - 2);
        }
    }
}

/// The characters of a string, in order.
pub fn chars_of(s: &str) -> (v: Vec<char>)
    ensures
        v@ == s@,
{
    let n: usize = s.unicode_len();
    let mut v: Vec<char> = Vec::new();
    let mut i: usize = 0;
    while i < n
        invariant
            i <= n,
            n == s@.len(),
            v@ == s@.take(i as int),
        decreases n - i,
    {
        v.push(s.get_char(i));
        i += 1;
        proof {
            assert(v@ =~= s@.take(i as int));
        }
    }
    proof {
        assert(s@.take(n as int) =~= s@);
    }
    v
}

fn least_of(x: usize, y: usize) -> (m: usize)
    ensures
        m == least(x as int, y as int),
{
    if x <= y {
        x
    } else {
        y
    }
}

/// The edit distance between two sequences of characters.
pub fn edit_distance(a: &[char], b: &[char]) -> (d: usize)
    ensures
        d == distance_spec(a@, b@),
{
    let n: usize = a.len();
    let m: usize = b.len();
    let mut prev: Vec<usize> = Vec::new();
    let mut j: usize = 0;
    while j < m
        invariant
            j <= m,
            prev@.len() == j,
            forall|k: int| 0 <= k < j ==> prev@[k] == k,
        decreases m - j,
    {
        prev.push(j);
        j += 1;
    }
    prev.push(m);
    let width: usize = prev.len();
    let mut older: Vec<usize> = Vec::new();
    let mut r: usize = 0;
    while r < n
        invariant
            r <= n,
            n == a@.len(),
            m == b@.len(),
            width == m + 1,
            prev@.len() == m + 1,
            forall|k: int| 0 <= k <= m ==> prev@[k] == distance_at(a@, b@, r as int, k),
            r >= 1 ==> older@.len() == m + 1,
            r >= 1 ==> forall|k: int| 0 <= k <= m ==> older@[k] == distance_at(a@, b@, r - 1, k),
        decreases n - r,
    {
        let i: usize = r + 1;
        let mut cur: Vec<usize> = Vec::new();
        cur.push(i);
        let mut c: usize = 0;
        while c < m
            invariant
                c <= m,
                i == r + 1,
                1 <= i <= n,
                n == a@.len(),
                m == b@.len(),
                width == m + 1,
                prev@.len() == m + 1,
                forall|k: int| 0 <= k <= m ==> prev@[k] == distance_at(a@, b@, r as int, k),
                r >= 1 ==> older@.len() == m + 1,
                r >= 1 ==> forall|k: int|
                    0 <= k <= m ==> older@[k] == distance_at(a@, b@, r - 1, k),
                cur@.len() == c + 1,
                forall|k: int| 0 <= k <= c ==> cur@[k] == distance_at(a@, b@, i as int, k),
            decreases m - c,
        {
            let j: usize = c + 1;
            proof {
                lemma_distance_bounds(a@, b@, i - 1, j as int);
                lemma_distance_bounds(a@, b@, i as int, j - 1);
                lemma_distance_bounds(a@, b@, i - 1, j - 1);
                if i > 1 && j > 1 {
                    lemma_distance_bounds(a@, b@, i - 2, j - 2);
                }
            }
            let cost: usize = if a[i - 1] == b[j - 1] {
                0
            } else {
                1
            };
            let mut v: usize = least_of(prev[j] + 1, prev[j - 1] + cost);
            if cur[j - 1] < v {
                v = cur[j - 1] + 1;
            }
            if i > 1 && j > 1 && a[i - 1] == b[j - 2] && a[i - 2] == b[j - 1] {
                v = least_of(v, older[j - 2] + cost);
            }
            cur.push(v);
            c += 1;
        }
        older = prev;
        prev = cur;
        r += 1;
    }
    prev[m]
}

/// The edit distance between two strings, by character.
pub fn levenshtein_distance(string1: &str, string2: &str) -> (d: usize)
    ensures
        d == distance_spec(string1@, string2@),
{
    let a = chars_of(string1);
    let b = chars_of(string2);
    edit_distance(a.as_slice(), b.as_slice())
}

/// The place of the candidate nearest to `input`; of several equally near,
/// the first. `None` only where there is no candidate.
pub fn nearest(input: &[char], candidates: &Vec<Vec<char>>) -> (pick: Option<usize>)
    ensures
        match pick {
            Some(p) => is_first_nearest(input@, words_of(candidates@), p as int),
            None => candidates@.len() == 0,
        },
{
    if candidates.len() == 0 {
        return None;
    }
    let ghost texts = words_of(candidates@);
    let mut best: usize = 0;
    let mut best_distance: usize = edit_distance(input, candidates[0].as_slice());
    let mut k: usize = 1;
    while k < candidates.len()
        invariant
            1 <= k <= candidates@.len(),
            texts == words_of(candidates@),
            0 <= best < k,
            best_distance == distance_spec(input@, texts[best as int]),
            forall|q: int|
                0 <= q < k ==> best_distance <= distance_spec(input@, #[trigger] texts[q]),
            forall|q: int|
                0 <= q < best ==> best_distance < distance_spec(input@, #[trigger] texts[q]),
        decreases candidates@.len() - k,
    {
        let distance: usize = edit_distance(input, candidates[k].as_slice());
        if distance < best_distance {
            best = k;
            best_distance = distance;
        }
        k += 1;
    }
    Some(best)
}

/// The place of the string nearest to `input` among `candidates`; of several
/// equally near, the first. `None` only where there is no candidate.
pub fn suggest(input: &str, candidates: &Vec<String>) -> (pick: Option<usize>)
    ensures
        match pick {
            Some(p) => is_first_nearest(input@, texts_of(candidates@), p as int),
            None => candidates@.len() == 0,
        },
{
    let text = chars_of(input);
    let mut words: Vec<Vec<char>> = Vec::new();
    let mut k: usize = 0;
    while k < candidates.len()
        invariant
            k <= candidates@.len(),
            words@.len() == k,
            forall|q: int| 0 <= q < k ==> (#[trigger] words@[q])@ == candidates@[q]@,
        decreases candidates@.len() - k,
    {
        words.push(chars_of(candidates[k].as_str()));
        k += 1;
    }
    proof {
        assert(words_of(words@) =~= texts_of(candidates@));
    }
    nearest(text.as_slice(), &words)
}

} // verus!
