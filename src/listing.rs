//! Which entries a listing shows, and in what order.

use vstd::prelude::*;
use crate::entry::FileInfo;
use crate::order::{
    chars_before, chars_precede, lemma_chars_irreflexive, lemma_chars_total, lemma_chars_transitive, lower_of,
    lowercase_chars, rank_of, time_rank,
};

verus! {

/// The options of one listing.
#[derive(Clone, Copy, Debug, PartialEq, Eq, Structural)]
pub struct ListingConfig {
    /// Show hidden entries too.
    pub all: bool,
    /// Compact grid layout instead of one line per entry.
    pub short: bool,
    /// Order by modification time, latest first, instead of by name.
    pub time: bool,
    /// Sizes scaled to binary units.
    pub human: bool,
    /// Raw byte counts, whatever `human` says.
    pub bytes: bool,
}

/// Whether an entry is shown.
pub open spec fn listed(e: FileInfo, show_hidden: bool) -> bool {
    show_hidden || !e.is_hidden
}

/// `a`'s sort key comes strictly before `b`'s, where `ka` and `kb` are their
/// name keys: a later modification time, or a name key earlier in code-point
/// order.
pub open spec fn key_before(a: FileInfo, ka: Seq<char>, b: FileInfo, kb: Seq<char>, by_time: bool) -> bool {
    if by_time {
        time_rank(a.modified) > time_rank(b.modified)
    } else {
        chars_before(ka, kb)
    }
}

/// `a` and `b` have equal sort keys, where `ka` and `kb` are their name keys.
pub open spec fn key_equal(a: FileInfo, ka: Seq<char>, b: FileInfo, kb: Seq<char>, by_time: bool) -> bool {
    if by_time {
        time_rank(a.modified) == time_rank(b.modified)
    } else {
        ka == kb
    }
}

/// The entry at position `i` of `s` goes before the one at `j`, where `ks`
/// gives each position's name key: by key, and on equal keys by position
/// (a stable order).
pub open spec fn placed_before(s: Seq<FileInfo>, ks: Seq<Seq<char>>, i: int, j: int, by_time: bool) -> bool {
    key_before(s[i], ks[i], s[j], ks[j], by_time) || (key_equal(s[i], ks[i], s[j], ks[j], by_time) && i
        < j)
}

/// `out` is the listing of `input` under the name keys `ks`: `p` gives, for
/// each place of `out`, the position in `input` of the entry there; exactly
/// the shown entries appear, each once, in stable key order.
pub open spec fn arranged_with(
    input: Seq<FileInfo>,
    ks: Seq<Seq<char>>,
    show_hidden: bool,
    by_time: bool,
    p: Seq<int>,
    out: Seq<FileInfo>,
) -> bool {
    &&& p.len() == out.len()
    &&& p.no_duplicates()
    &&& forall|i: int| 0 <= i < p.len() ==> 0 <= #[trigger] p[i] < input.len() && out[i] == input[p[i]]
    &&& forall|k: int| 0 <= k < input.len() ==> (listed(input[k], show_hidden) <==> p.contains(k))
    &&& forall|a: int, b: int|
        0 <= a < b < p.len() ==> placed_before(input, ks, #[trigger] p[a], #[trigger] p[b], by_time)
}

/// The lower-cased names of the entries, as name keys.
pub open spec fn lower_keys(s: Seq<FileInfo>) -> Seq<Seq<char>> {
    Seq::new(s.len(), |i: int| lower_of(s[i].name@))
}

/// The name keys held in `keys`.
pub open spec fn key_views(keys: Seq<Vec<char>>) -> Seq<Seq<char>> {
    keys.map_values(|k: Vec<char>| k@)
}

/// `out` is the listing of `input`, ordered by lower-cased name or by time.
pub open spec fn arranged_by(
    input: Seq<FileInfo>,
    show_hidden: bool,
    by_time: bool,
    p: Seq<int>,
    out: Seq<FileInfo>,
) -> bool {
    arranged_with(input, lower_keys(input), show_hidden, by_time, p, out)
}

/// A key that comes before or equals `b`'s, where `b`'s comes before `c`'s,
/// comes before `c`'s.
proof fn lemma_key_order(
    a: FileInfo,
    ka: Seq<char>,
    b: FileInfo,
    kb: Seq<char>,
    c: FileInfo,
    kc: Seq<char>,
    by_time: bool,
)
    requires
        key_before(a, ka, b, kb, by_time) || key_equal(a, ka, b, kb, by_time),
        key_before(b, kb, c, kc, by_time),
    ensures
        key_before(a, ka, c, kc, by_time),
{
    if !by_time && key_before(a, ka, b, kb, by_time) {
        lemma_chars_transitive(ka, kb, kc);
    }
}

/// In time order the name keys play no part.
proof fn lemma_time_order_any_keys(
    input: Seq<FileInfo>,
    k1: Seq<Seq<char>>,
    k2: Seq<Seq<char>>,
    show_hidden: bool,
    p: Seq<int>,
    out: Seq<FileInfo>,
)
    requires
        arranged_with(input, k1, show_hidden, true, p, out),
    ensures
        arranged_with(input, k2, show_hidden, true, p, out),
{
    assert forall|a: int, b: int| 0 <= a < b < p.len() implies placed_before(
        input,
        k2,
        #[trigger] p[a],
        #[trigger] p[b],
        true,
    ) by {
        assert(placed_before(input, k1, p[a], p[b], true));
    }
}

/// Filters and orders the entries of a directory: hidden ones are dropped
/// unless `config.all` is set; the rest are ordered by lower-cased name, or
/// by modification time, latest first and missing times last, when
/// `config.time` is set; entries with equal keys keep their order.
pub fn arrange_entries(entries: Vec<FileInfo>, config: &ListingConfig) -> (r: Vec<FileInfo>)
    ensures
        exists|p: Seq<int>| arranged_by(entries@, config.all, config.time, p, r@),
{
    let mut keys: Vec<Vec<char>> = Vec::new();
    let mut i: usize = 0;
    while i < entries.len()
        invariant
            i <= entries.len(),
            keys.len() == i,
            !config.time ==> forall|j: int| 0 <= j < i ==> #[trigger] keys@[j]@ == lower_of(entries@[j].name@),
        decreases entries.len() - i,
    {
        let key = if config.time {
            Vec::new()
        } else {
            lowercase_chars(entries[i].name.as_str())
        };
        keys.push(key);
        i = i + 1;
    }
    let ghost input = entries@;
    let ghost ks = key_views(keys@);
    let r = arrange_by_keys(entries, keys, config);
    proof {
        let p = choose|p: Seq<int>| arranged_with(input, ks, config.all, config.time, p, r@);
        if config.time {
            lemma_time_order_any_keys(input, ks, lower_keys(input), config.all, p, r@);
        } else {
            assert(ks =~= lower_keys(input));
        }
        assert(arranged_by(input, config.all, config.time, p, r@));
    }
    r
}

/// Filters and orders entries by the name keys given for them (`keys[i]`
/// for `entries[i]`): hidden ones are dropped unless `config.all` is set;
/// the rest are ordered by key in code-point order, or by modification time,
/// latest first and missing times last, when `config.time` is set; entries
/// with equal keys keep their order.
pub fn arrange_by_keys(entries: Vec<FileInfo>, keys: Vec<Vec<char>>, config: &ListingConfig) -> (r: Vec<FileInfo>)
    requires
        keys.len() == entries.len(),
    ensures
        exists|p: Seq<int>|
            arranged_with(entries@, key_views(keys@), config.all, config.time, p, r@),
{
    let ghost input = entries@;
    let ghost ks = key_views(keys@);
    let ghost keys_in = keys@;
    let mut key_rest = keys;
    let ghost n = entries.len() as int;
    let by_time = config.time;
    let mut rest = entries;
    let mut out: Vec<FileInfo> = Vec::new();
    let mut keys: Vec<Vec<char>> = Vec::new();
    let mut ranks: Vec<i128> = Vec::new();
    let ghost mut p: Seq<int> = Seq::empty();
    assert(input.subrange(0, n) =~= input);
    assert(keys_in.subrange(0, n) =~= keys_in);
    while rest.len() > 0
        invariant
            rest.len() <= n,
            rest@ == input.subrange(0, rest.len() as int),
            key_rest@ == keys_in.subrange(0, rest.len() as int),
            keys_in.len() == n,
            ks == key_views(keys_in),
            n == input.len(),
            by_time == config.time,
            out.len() == p.len(),
            keys.len() == p.len(),
            ranks.len() == p.len(),
            p.no_duplicates(),
            forall|i: int|
                0 <= i < p.len() ==> rest.len() <= #[trigger] p[i] < n && out@[i] == input[p[i]],
            forall|i: int| 0 <= i < p.len() ==> #[trigger] ranks@[i] == time_rank(out@[i].modified),
            forall|i: int| 0 <= i < p.len() ==> #[trigger] keys@[i]@ == ks[p[i]],
            forall|k: int|
                rest.len() <= k < n ==> (listed(input[k], config.all) <==> p.contains(k)),
            forall|a: int, b: int|
                0 <= a < b < p.len() ==> placed_before(input, ks, #[trigger] p[a], #[trigger] p[b], by_time),
        decreases rest.len(),
    {
        let ghost before = rest@;
        let ghost keys_before = key_rest@;
        let e = rest.pop().unwrap();
        let key = key_rest.pop().unwrap();
        let ghost k = rest.len() as int;
        assert(rest@ =~= input.subrange(0, k));
        assert(key_rest@ =~= keys_in.subrange(0, k));
        assert(e == before[k]);
        assert(key == keys_before[k]);
        assert(key@ == ks[k]);
        if config.all || !e.is_hidden {
            let rank = rank_of(&e.modified);
            let mut lo: usize = 0;
            let mut hi: usize = out.len();
            while lo < hi
                invariant
                    lo <= hi <= out.len(),
                    out.len() == keys.len(),
                    out.len() == ranks.len(),
                    out.len() == p.len(),
                    forall|i: int| 0 <= i < p.len() ==> #[trigger] ranks@[i] == time_rank(out@[i].modified),
                    forall|i: int| 0 <= i < p.len() ==> #[trigger] keys@[i]@ == ks[p[i]],
                    forall|i: int| 0 <= i < p.len() ==> #[trigger] p[i] < n && out@[i] == input[p[i]],
                    forall|a: int, b: int|
                        0 <= a < b < p.len() ==> placed_before(input, ks, #[trigger] p[a], #[trigger] p[b], by_time),
                    rank == time_rank(e.modified),
                    key@ == ks[k],
                    e == input[k],
                    forall|i: int| 0 <= i < lo ==> key_before(#[trigger] out@[i], keys@[i]@, e, key@, by_time),
                    forall|i: int|
                        hi <= i < out.len() ==> !key_before(#[trigger] out@[i], keys@[i]@, e, key@, by_time),
                decreases hi - lo,
            {
                let mid = lo + (hi - lo) / 2;
                let ahead = if by_time {
                    ranks[mid] > rank
                } else {
                    chars_precede(&keys[mid], &key)
                };
                if ahead {
                    proof {
                        assert forall|i: int| 0 <= i <= mid implies key_before(
                            #[trigger] out@[i],
                            keys@[i]@,
                            e,
                            key@,
                            by_time,
                        ) by {
                            if i < mid {
                                let m = mid as int;
                                assert(placed_before(input, ks, p[i], p[m], by_time));
                                lemma_key_order(out@[i], keys@[i]@, out@[m], keys@[m]@, e, key@, by_time);
                            }
                        }
                    }
                    lo = mid + 1;
                } else {
                    proof {
                        assert forall|i: int| mid <= i < out.len() implies !key_before(
                            #[trigger] out@[i],
                            keys@[i]@,
                            e,
                            key@,
                            by_time,
                        ) by {
                            let m = mid as int;
                            if i > mid && key_before(out@[i], keys@[i]@, e, key@, by_time) {
                                assert(placed_before(input, ks, p[m], p[i], by_time));
                                lemma_key_order(out@[m], keys@[m]@, out@[i], keys@[i]@, e, key@, by_time);
                            }
                        }
                    }
                    hi = mid;
                }
            }
            let j = lo;
            proof {
                assert forall|i: int| j <= i < out.len() implies placed_before(input, ks, k, #[trigger] p[i], by_time) by {
                    if !by_time {
                        lemma_chars_total(key@, keys@[i]@);
                    }
                }
            }
            let ghost old_p = p;
            let ghost old_out = out@;
            let ghost old_keys = keys@;
            out.insert(j, e);
            keys.insert(j, key);
            ranks.insert(j, rank);
            proof {
                p = p.insert(j as int, k);
                assert forall|a: int, b: int| 0 <= a < b < p.len() implies placed_before(
                    input,
                    ks,
                    #[trigger] p[a],
                    #[trigger] p[b],
                    by_time,
                ) by {
                    let a0 = if a < j { a } else { a - 1 };
                    let b0 = if b < j { b } else { b - 1 };
                    if a != j && b != j {
                        assert(p[a] == old_p[a0] && p[b] == old_p[b0]);
                        assert(placed_before(input, ks, old_p[a0], old_p[b0], by_time));
                    } else if a == j {
                        assert(p[b] == old_p[b0]);
                        assert(placed_before(input, ks, k, old_p[b0], by_time));
                    } else {
                        assert(p[a] == old_p[a0]);
                        assert(key_before(old_out[a0], old_keys[a0]@, e, key@, by_time));
                    }
                }
                assert forall|i: int| 0 <= i < p.len() implies rest.len() <= #[trigger] p[i] < n
                    && out@[i] == input[p[i]] by {
                    if i > j {
                        assert(p[i] == old_p[i - 1]);
                        assert(out@[i] == old_out[i - 1]);
                    } else if i < j {
                        assert(p[i] == old_p[i]);
                        assert(out@[i] == old_out[i]);
                    }
                }
                assert forall|a: int, b: int| 0 <= a < p.len() && 0 <= b < p.len() && a != b
                    implies p[a] != p[b] by {
                    if a != j && b != j {
                        let a0 = if a < j { a } else { a - 1 };
                        let b0 = if b < j { b } else { b - 1 };
                        assert(p[a] == old_p[a0] && p[b] == old_p[b0]);
                    } else if a == j {
                        let b0 = if b < j { b } else { b - 1 };
                        assert(p[b] == old_p[b0]);
                    } else {
                        let a0 = if a < j { a } else { a - 1 };
                        assert(p[a] == old_p[a0]);
                    }
                }
                assert forall|q: int| rest.len() <= q < n implies (listed(input[q], config.all)
                    <==> p.contains(q)) by {
                    if q == k {
                        assert(p[j as int] == k);
                    } else {
                        if old_p.contains(q) {
                            let w = choose|w: int| 0 <= w < old_p.len() && old_p[w] == q;
                            let w2 = if w < j { w } else { w + 1 };
                            assert(p[w2] == q);
                        }
                        if p.contains(q) {
                            let w = choose|w: int| 0 <= w < p.len() && p[w] == q;
                            assert(w != j);
                            let w0 = if w < j { w } else { w - 1 };
                            assert(old_p[w0] == q);
                        }
                    }
                }
                assert forall|i: int| 0 <= i < p.len() implies #[trigger] keys@[i]@ == ks[p[i]] by {
                    if i > j {
                        assert(p[i] == old_p[i - 1]);
                        assert(keys@[i] == old_keys[i - 1]);
                    } else if i < j {
                        assert(p[i] == old_p[i]);
                        assert(keys@[i] == old_keys[i]);
                    }
                }
                assert forall|i: int| 0 <= i < p.len() implies #[trigger] ranks@[i] == time_rank(
                    out@[i].modified,
                ) by {
                    if i > j {
                        assert(out@[i] == old_out[i - 1]);
                    }
                }
            }
        } else {
            proof {
                assert forall|q: int| rest.len() <= q < n implies (listed(input[q], config.all)
                    <==> p.contains(q)) by {
                    if q == k && p.contains(q) {
                        let w = choose|w: int| 0 <= w < p.len() && p[w] == q;
                    }
                }
            }
        }
    }
    assert(arranged_with(input, ks, config.all, config.time, p, out@));
    out
}

/// A listing ordered by time runs from the latest modification time down:
/// an entry never has an earlier time than one after it, entries with equal
/// times keep their order in the input, and once an entry without a time
/// comes, every entry after it has none either.
pub proof fn lemma_time_order_descending(input: Seq<FileInfo>, show_hidden: bool, out: Seq<FileInfo>)
    requires
        exists|p: Seq<int>| arranged_by(input, show_hidden, true, p, out),
    ensures
        forall|i: int, j: int|
            0 <= i < j < out.len() ==> time_rank(#[trigger] out[i].modified) >= time_rank(
                #[trigger] out[j].modified,
            ),
        forall|i: int, j: int|
            0 <= i < j < out.len() && #[trigger] out[i].modified is None ==> #[trigger] out[j].modified is None,
        exists|p: Seq<int>|
            arranged_by(input, show_hidden, true, p, out) && forall|i: int, j: int|
                0 <= i < j < out.len() && time_rank(out[i].modified) == time_rank(out[j].modified)
                    ==> #[trigger] p[i] < #[trigger] p[j],
{
    let p = choose|p: Seq<int>| arranged_by(input, show_hidden, true, p, out);
    assert forall|i: int, j: int|
        0 <= i < j < out.len() implies time_rank(#[trigger] out[i].modified) >= time_rank(
        #[trigger] out[j].modified,
    ) by {
        assert(placed_before(input, lower_keys(input), p[i], p[j], true));
    }
    assert forall|i: int, j: int|
        0 <= i < j < out.len() && time_rank(out[i].modified) == time_rank(out[j].modified)
            implies #[trigger] p[i] < #[trigger] p[j] by {
        assert(placed_before(input, lower_keys(input), p[i], p[j], true));
    }
    assert forall|i: int, j: int|
        0 <= i < j < out.len() && #[trigger] out[i].modified is None implies #[trigger] out[j].modified is None by {
        assert(placed_before(input, lower_keys(input), p[i], p[j], true));
        if out[j].modified is Some {
            assert(time_rank(out[j].modified) >= 0);
        }
    }
}

/// A listing ordered by name runs up through the lower-cased names: each
/// entry's lower-cased name comes before, or equals, that of every entry
/// after it, and entries with equal lower-cased names keep their order in
/// the input.
pub proof fn lemma_name_order_ascending(input: Seq<FileInfo>, show_hidden: bool, out: Seq<FileInfo>)
    requires
        exists|p: Seq<int>| arranged_by(input, show_hidden, false, p, out),
    ensures
        forall|i: int, j: int|
            0 <= i < j < out.len() ==> chars_before(
                lower_of(#[trigger] out[i].name@),
                lower_of(#[trigger] out[j].name@),
            ) || lower_of(out[i].name@) == lower_of(out[j].name@),
        exists|p: Seq<int>|
            arranged_by(input, show_hidden, false, p, out) && forall|i: int, j: int|
                0 <= i < j < out.len() && lower_of(out[i].name@) == lower_of(out[j].name@)
                    ==> #[trigger] p[i] < #[trigger] p[j],
{
    let p = choose|p: Seq<int>| arranged_by(input, show_hidden, false, p, out);
    assert forall|i: int, j: int|
        0 <= i < j < out.len() implies chars_before(
        lower_of(#[trigger] out[i].name@),
        lower_of(#[trigger] out[j].name@),
    ) || lower_of(out[i].name@) == lower_of(out[j].name@) by {
        assert(placed_before(input, lower_keys(input), p[i], p[j], false));
    }
    assert forall|i: int, j: int|
        0 <= i < j < out.len() && lower_of(out[i].name@) == lower_of(out[j].name@)
            implies #[trigger] p[i] < #[trigger] p[j] by {
        assert(placed_before(input, lower_keys(input), p[i], p[j], false));
        if chars_before(lower_of(out[i].name@), lower_of(out[j].name@)) {
            lemma_chars_irreflexive(lower_of(out[i].name@));
        }
    }
}

} // verus!
