use crate::ordering::{
    is_stable_sort, key_is, lemma_insert_sorted, lemma_stable_sort_unique, lemma_stable_sorted,
    sorted_by, stable_sorted,
};
use crate::rollup::RollupEntry;
use vstd::prelude::*;

verus! {

/// What `str::to_lowercase` makes of a text.
pub uninterp spec fn lower_of(s: Seq<char>) -> Seq<char>;

/// Relies on `str::to_lowercase`: the lowercase form of a text depends on
/// its characters alone.
#[verifier::external_body]
fn lowercase(s: &str) -> (r: String)
    ensures
        r@ == lower_of(s@),
{
    s.to_lowercase()
}

/// Whether `t` occurs in `s` as a run of consecutive characters.
pub open spec fn has_substring(s: Seq<char>, t: Seq<char>) -> bool {
    exists|i: int| 0 <= i && i + t.len() <= s.len() && #[trigger] s.subrange(i, i + t.len()) == t
}

/// Whether `t` occurs in `s`.
pub fn contains_text(s: &str, t: &str) -> (r: bool)
    ensures
        r == has_substring(s@, t@),
{
    let n = s.unicode_len();
    let m = t.unicode_len();
    if m > n {
        return false;
    }
    let mut i: usize = 0;
    while i <= n - m
        invariant
            n == s@.len(),
            m == t@.len(),
            m <= n,
            i <= n - m + 1,
            forall|k: int| 0 <= k < i ==> #[trigger] s@.subrange(k, k + m) != t@,
        decreases n - m + 1 - i,
    {
        let mut j: usize = 0;
        let mut same = true;
        while j < m
            invariant
                n == s@.len(),
                m == t@.len(),
                i + m <= n,
                j <= m,
                same == forall|q: int| 0 <= q < j ==> s@[i + q] == t@[q],
            decreases m - j,
        {
            if s.get_char(i + j) != t.get_char(j) {
                same = false;
            }
            j = j + 1;
        }
        if same {
            assert(s@.subrange(i as int, i + m) == t@);
            return true;
        }
        proof {
            let q = choose|q: int| 0 <= q < m && s@[i + q] != t@[q];
            assert(s@.subrange(i as int, i + m)[q] != t@[q]);
        }
        i = i + 1;
    }
    proof {
        if has_substring(s@, t@) {
            let k = choose|k: int| 0 <= k && k + t@.len() <= s@.len() && #[trigger] s@.subrange(k, k + t@.len()) == t@;
            assert(s@.subrange(k, k + m) == t@);
        }
    }
    false
}

/// A gamemode with its peak concurrency.
pub open spec fn peak_row(e: RollupEntry) -> (String, usize) {
    (e.label, e.max)
}

/// Rows are listed by peak concurrency, highest first.
pub open spec fn peak_key() -> spec_fn((String, usize)) -> int {
    |r: (String, usize)| -(r.1 as int)
}

/// Whether a row's gamemode holds the search text, ignoring case; every row
/// matches where there is no search text.
pub open spec fn matches_search(row: (String, usize), search: Option<Seq<char>>) -> bool {
    match search {
        Some(q) => has_substring(lower_of(row.0@), lower_of(q)),
        None => true,
    }
}

/// The listing of a rollup: its gamemodes with their peaks, highest peak
/// first (equal peaks in rollup order), restricted to those that match the
/// search.
pub open spec fn listing(rollup: Seq<RollupEntry>, search: Option<Seq<char>>) -> Seq<(String, usize)> {
    stable_sorted(rollup.map_values(|e: RollupEntry| peak_row(e)), peak_key()).filter(
        search_pred(search),
    )
}

pub open spec fn search_pred(search: Option<Seq<char>>) -> spec_fn((String, usize)) -> bool {
    |r: (String, usize)| matches_search(r, search)
}

fn sort_by_peak(rows: Vec<(String, usize)>) -> (r: Vec<(String, usize)>)
    ensures
        r@ == stable_sorted(rows@, peak_key()),
{
    let ghost orig = rows@;
    let mut input = rows;
    let mut out: Vec<(String, usize)> = Vec::new();
    let ghost mut done: nat = 0;
    proof {
        reveal(Seq::filter);
        assert(orig.take(0) == Seq::<(String, usize)>::empty());
    }
    while input.len() > 0
        invariant
            done + input@.len() == orig.len(),
            input@ == orig.skip(done as int),
            is_stable_sort(orig.take(done as int), out@, peak_key()),
        decreases input@.len(),
    {
        let x = input.remove(0);
        let mut p = out.len();
        while p > 0 && out[p - 1].1 < x.1
            invariant
                p <= out@.len(),
                sorted_by(out@, peak_key()),
                forall|j: int| p <= j < out@.len() ==> (peak_key())(out@[j]) > (peak_key())(x),
            decreases p,
        {
            p = p - 1;
        }
        proof {
            assert forall|j: int| 0 <= j < p implies (peak_key())(out@[j]) <= (peak_key())(x) by {
                assert((peak_key())(out@[j]) <= (peak_key())(out@[p - 1]));
            }
            lemma_insert_sorted(out@, p as int, x, peak_key());
            assert(orig.take(done as int + 1) == orig.take(done as int).push(x));
            assert forall|k: int| #[trigger] orig.take(done as int + 1).filter(key_is(peak_key(), k))
                == out@.insert(p as int, x).filter(key_is(peak_key(), k)) by {
                orig.take(done as int).lemma_filter_push(x, key_is(peak_key(), k));
                out@.lemma_filter_push(x, key_is(peak_key(), k));
            }
        }
        out.insert(p, x);
        proof {
            done = done + 1;
        }
    }
    proof {
        assert(orig.take(done as int) == orig);
        lemma_stable_sorted(orig, peak_key());
        lemma_stable_sort_unique(orig, out@, stable_sorted(orig, peak_key()), peak_key());
    }
    out
}

/// Lists the gamemodes of a rollup with their peak concurrency, highest
/// first, keeping only those whose name holds `search` where it is given;
/// names and search text are compared in lowercase.
pub fn list_gamemodes(rollup: &Vec<RollupEntry>, search: Option<&str>) -> (r: Vec<(String, usize)>)
    ensures
        r@ == listing(
            rollup@,
            match search {
                Some(q) => Some(q@),
                None => None,
            },
        ),
{
    let ghost q: Option<Seq<char>> = match search {
        Some(q) => Some(q@),
        None => None,
    };
    let mut rows: Vec<(String, usize)> = Vec::new();
    let mut i: usize = 0;
    while i < rollup.len()
        invariant
            i <= rollup.len(),
            rows@ == rollup@.take(i as int).map_values(|e: RollupEntry| peak_row(e)),
        decreases rollup.len() - i,
    {
        rows.push((rollup[i].label.clone(), rollup[i].max));
        proof {
            assert(rollup@.take(i + 1) == rollup@.take(i as int).push(rollup@[i as int]));
        }
        i = i + 1;
    }
    proof {
        assert(rollup@.take(i as int) == rollup@);
    }
    let sorted = sort_by_peak(rows);
    let needle: Option<String> = match search {
        Some(s) => Some(lowercase(s)),
        None => None,
    };
    let ghost pred = search_pred(q);
    let mut out: Vec<(String, usize)> = Vec::new();
    let mut k: usize = 0;
    proof {
        reveal(Seq::filter);
        assert(sorted@.take(0) == Seq::<(String, usize)>::empty());
    }
    while k < sorted.len()
        invariant
            k <= sorted.len(),
            pred == search_pred(q),
            out@ == sorted@.take(k as int).filter(pred),
            match needle {
                Some(nd) => q matches Some(qq) && nd@ == lower_of(qq),
                None => q is None,
            },
        decreases sorted.len() - k,
    {
        let keep = match &needle {
            Some(nd) => {
                let low = lowercase(sorted[k].0.as_str());
                contains_text(low.as_str(), nd.as_str())
            },
            None => true,
        };
        proof {
            assert(sorted@.take(k + 1) == sorted@.take(k as int).push(sorted@[k as int]));
            sorted@.take(k as int).lemma_filter_push(sorted@[k as int], pred);
        }
        if keep {
            let row = (sorted[k].0.clone(), sorted[k].1);
            out.push(row);
        }
        k = k + 1;
    }
    proof {
        assert(sorted@.take(k as int) == sorted@);
    }
    out
}

} // verus!
