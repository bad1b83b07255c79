use vstd::prelude::*;
use vstd::utf8::encode_utf8;
use crate::text::{chars_of, contains_text, push_char, spec_contains};

verus! {

broadcast use vstd::string::group_string_axioms;

/// Seed of the FNV-style token hash.
pub const HASH_SEED: u64 = 0xcbf29ce484222325;

/// Multiplier of the FNV-style token hash.
pub const HASH_PRIME: u64 = 0x100000001b3;

/// Number of buckets of a token embedding.
pub const EMBEDDING_BUCKETS: usize = 64;

/// One hashing step: mix the byte in, then multiply modulo 2^64.
pub open spec fn fx_step(h: u64, b: u8) -> u64 {
    (((h ^ (b as u64)) as nat * HASH_PRIME as nat) % 0x1_0000_0000_0000_0000nat) as u64
}

/// The hash of a byte string: the seed folded through `fx_step` byte by byte.
pub open spec fn fx_hash(bytes: Seq<u8>) -> u64
    decreases bytes.len(),
{
    if bytes.len() == 0 {
        HASH_SEED
    } else {
        fx_step(fx_hash(bytes.drop_last()), bytes.last())
    }
}

/// Hash of the UTF-8 bytes of `input` (64-bit FNV-1a).
pub fn fxhash(input: &str) -> (h: u64)
    ensures
        h == fx_hash(encode_utf8(input@)),
{
    let bytes = input.as_bytes();
    let mut hash: u64 = HASH_SEED;
    let mut i: usize = 0;
    while i < bytes.len()
        invariant
            bytes@ == encode_utf8(input@),
            i <= bytes@.len(),
            hash == fx_hash(bytes@.take(i as int)),
        decreases bytes.len() - i,
    {
        let b = bytes[i];
        hash = hash ^ (b as u64);
        hash = hash.wrapping_mul(HASH_PRIME);
        assert(bytes@.take(i + 1).drop_last() =~= bytes@.take(i as int));
        i = i + 1;
    }
    assert(bytes@.take(bytes@.len() as int) =~= bytes@);
    hash
}

/// Whether `char::is_alphanumeric` holds of `c` (Unicode `Alphabetic` or `Numeric`).
pub uninterp spec fn alphanumeric(c: char) -> bool;

/// `char::is_alphanumeric`.
#[verifier::external_body]
fn is_alphanumeric(c: char) -> (r: bool)
    ensures
        r == alphanumeric(c),
{
    c.is_alphanumeric()
}

/// Scanning state after reading `s`, where `alnum[i]` says whether `s[i]` belongs
/// to a token: the tokens already closed, and the run still open at the end.
pub open spec fn scan_tokens(s: Seq<char>, alnum: Seq<bool>) -> (Seq<Seq<char>>, Seq<char>)
    decreases s.len(),
{
    if s.len() == 0 {
        (seq![], seq![])
    } else {
        let prev = scan_tokens(s.drop_last(), alnum.drop_last());
        let c = s.last();
        if alnum[s.len() - 1] {
            (prev.0, prev.1.push(c))
        } else if prev.1.len() > 0 {
            (prev.0.push(prev.1), seq![])
        } else {
            prev
        }
    }
}

/// The tokens of `s`: its maximal non-empty runs of characters flagged in `alnum`,
/// in order (what splitting at every unflagged character and dropping empty pieces gives).
pub open spec fn tokens(s: Seq<char>, alnum: Seq<bool>) -> Seq<Seq<char>> {
    let st = scan_tokens(s, alnum);
    if st.1.len() > 0 { st.0.push(st.1) } else { st.0 }
}

/// Which characters of `s` are alphanumeric.
pub open spec fn alnum_flags(s: Seq<char>) -> Seq<bool> {
    s.map_values(|c: char| alphanumeric(c))
}

/// The bucket a token falls in: the hash of its UTF-8 bytes modulo the bucket count.
pub open spec fn token_bucket(t: Seq<char>) -> int {
    (fx_hash(encode_utf8(t)) % (EMBEDDING_BUCKETS as u64)) as int
}

/// How many of `toks` fall in each bucket.
pub open spec fn bucket_histogram(toks: Seq<Seq<char>>) -> Seq<nat>
    decreases toks.len(),
{
    if toks.len() == 0 {
        Seq::new(EMBEDDING_BUCKETS as nat, |i: int| 0nat)
    } else {
        let h = bucket_histogram(toks.drop_last());
        let b = token_bucket(toks.last());
        h.update(b, h[b] + 1)
    }
}

proof fn lemma_histogram_shape(toks: Seq<Seq<char>>)
    ensures
        bucket_histogram(toks).len() == EMBEDDING_BUCKETS,
        forall|i: int| 0 <= i < EMBEDDING_BUCKETS ==> #[trigger] bucket_histogram(toks)[i] <= toks.len(),
    decreases toks.len(),
{
    if toks.len() > 0 {
        lemma_histogram_shape(toks.drop_last());
    }
}

proof fn lemma_scan_sizes(s: Seq<char>, alnum: Seq<bool>)
    ensures
        scan_tokens(s, alnum).0.len() + scan_tokens(s, alnum).1.len() <= s.len(),
    decreases s.len(),
{
    if s.len() > 0 {
        lemma_scan_sizes(s.drop_last(), alnum.drop_last());
    }
}

/// Sum of the first `n` bucket counts.
pub open spec fn sum_prefix(h: Seq<nat>, n: int) -> nat
    decreases n,
{
    if n <= 0 { 0 } else { sum_prefix(h, n - 1) + h[n - 1] }
}

proof fn lemma_sum_prefix_update(h: Seq<nat>, n: int, b: int, v: nat)
    requires
        0 <= b < h.len(),
        0 <= n <= h.len(),
    ensures
        sum_prefix(h.update(b, v), n) == if b < n { sum_prefix(h, n) - h[b] + v } else { sum_prefix(h, n) as int },
    decreases n,
{
    if n > 0 {
        lemma_sum_prefix_update(h, n - 1, b, v);
    }
}

proof fn lemma_sum_prefix_zero(n: int)
    requires
        0 <= n <= EMBEDDING_BUCKETS,
    ensures
        sum_prefix(Seq::new(EMBEDDING_BUCKETS as nat, |i: int| 0nat), n) == 0,
    decreases n,
{
    if n > 0 {
        lemma_sum_prefix_zero(n - 1);
    }
}

/// Every token is counted in exactly one bucket: the bucket counts add up to the
/// number of tokens.
pub proof fn lemma_histogram_counts_every_token(toks: Seq<Seq<char>>)
    ensures
        sum_prefix(bucket_histogram(toks), EMBEDDING_BUCKETS as int) == toks.len(),
    decreases toks.len(),
{
    if toks.len() == 0 {
        lemma_sum_prefix_zero(EMBEDDING_BUCKETS as int);
    } else {
        let h = bucket_histogram(toks.drop_last());
        let b = token_bucket(toks.last());
        lemma_histogram_counts_every_token(toks.drop_last());
        lemma_histogram_shape(toks.drop_last());
        assert(0 <= b < EMBEDDING_BUCKETS);
        lemma_sum_prefix_update(h, EMBEDDING_BUCKETS as int, b, h[b] + 1);
    }
}

proof fn lemma_histogram_remove(s: Seq<Seq<char>>, j: int)
    requires
        0 <= j < s.len(),
    ensures
        bucket_histogram(s) == bucket_histogram(s.remove(j)).update(
            token_bucket(s[j]),
            bucket_histogram(s.remove(j))[token_bucket(s[j])] + 1,
        ),
    decreases s.len(),
{
    if j == s.len() - 1 {
        assert(s.remove(j) =~= s.drop_last());
    } else {
        let d = s.drop_last();
        lemma_histogram_remove(d, j);
        assert(d.remove(j) =~= s.remove(j).drop_last());
        assert(s.remove(j).last() == s.last());
        assert(s.remove(j).len() > 0);
        let base = bucket_histogram(d.remove(j));
        lemma_histogram_shape(d.remove(j));
        lemma_histogram_shape(d);
        lemma_histogram_shape(s.remove(j));
        let bj = token_bucket(s[j]);
        let bl = token_bucket(s.last());
        assert(d[j] == s[j]);
        assert(bucket_histogram(s.remove(j)) == bucket_histogram(s.remove(j).drop_last()).update(
            bl,
            bucket_histogram(s.remove(j).drop_last())[bl] + 1,
        ));
        assert(bucket_histogram(s) =~= bucket_histogram(s.remove(j)).update(
            bj,
            bucket_histogram(s.remove(j))[bj] + 1,
        ));
    }
}

/// Token order does not matter: token sequences that are permutations of each
/// other (equal as multisets) get the same bucket counts, so texts whose tokens are
/// permutations of each other get the same `token_buckets` result.
pub proof fn lemma_permuted_tokens_same_buckets(t1: Seq<Seq<char>>, t2: Seq<Seq<char>>)
    requires
        t1.to_multiset() == t2.to_multiset(),
    ensures
        bucket_histogram(t1) == bucket_histogram(t2),
    decreases t1.len(),
{
    broadcast use vstd::seq_lib::group_to_multiset_ensures;
    broadcast use vstd::multiset::group_multiset_axioms;

    if t1.len() == 0 {
        assert(t2.to_multiset().len() == 0);
        assert(t2.len() == 0);
        assert(t1 =~= t2);
    } else {
        let x = t1.last();
        let d = t1.drop_last();
        assert(d.push(x) =~= t1);
        assert(t1.to_multiset() =~= d.to_multiset().insert(x));
        assert(t2.to_multiset().count(x) > 0);
        assert(t2.contains(x));
        let j = choose|j: int| 0 <= j < t2.len() && t2[j] == x;
        assert(t2.remove(j).to_multiset() =~= t2.to_multiset().remove(x));
        assert(d.to_multiset() =~= d.to_multiset().insert(x).remove(x));
        lemma_permuted_tokens_same_buckets(d, t2.remove(j));
        lemma_histogram_remove(t2, j);
    }
}

/// Per-bucket counts of the tokens of `chars` delimited by `alnum`: every token is
/// hashed and counted in bucket `hash % 64`.
pub fn bucket_counts(chars: &Vec<char>, alnum: &Vec<bool>) -> (counts: Vec<u64>)
    requires
        chars@.len() == alnum@.len(),
    ensures
        counts@.len() == EMBEDDING_BUCKETS,
        forall|i: int| 0 <= i < EMBEDDING_BUCKETS ==> #[trigger] counts@[i] == bucket_histogram(
            tokens(chars@, alnum@),
        )[i],
{
    let mut counts: Vec<u64> = Vec::new();
    let mut k: usize = 0;
    while k < EMBEDDING_BUCKETS
        invariant
            k <= EMBEDDING_BUCKETS,
            counts@.len() == k,
            forall|i: int| 0 <= i < k ==> counts@[i] == 0,
        decreases EMBEDDING_BUCKETS - k,
    {
        counts.push(0);
        k = k + 1;
    }
    let mut cur = String::new();
    let mut idx: usize = 0;
    while idx < chars.len()
        invariant
            chars@.len() == alnum@.len(),
            idx <= chars@.len(),
            cur@ == scan_tokens(chars@.take(idx as int), alnum@.take(idx as int)).1,
            counts@.len() == EMBEDDING_BUCKETS,
            forall|i: int| 0 <= i < EMBEDDING_BUCKETS ==> #[trigger] counts@[i]
                == bucket_histogram(scan_tokens(chars@.take(idx as int), alnum@.take(idx as int)).0)[i],
        decreases chars.len() - idx,
    {
        let c = chars[idx];
        let ghost pre = chars@.take(idx as int);
        let ghost pre_flags = alnum@.take(idx as int);
        let ghost now = chars@.take(idx + 1);
        let ghost now_flags = alnum@.take(idx + 1);
        assert(now.drop_last() =~= pre);
        assert(now_flags.drop_last() =~= pre_flags);
        assert(now.last() == c);
        assert(now_flags[idx as int] == alnum@[idx as int]);
        proof {
            lemma_scan_sizes(pre, pre_flags);
            lemma_histogram_shape(scan_tokens(pre, pre_flags).0);
        }
        if alnum[idx] {
            push_char(&mut cur, c);
        } else if !cur.as_str().is_empty() {
            let b = (fxhash(cur.as_str()) % 64) as usize;
            let ghost done = scan_tokens(pre, pre_flags).0;
            assert(done.push(cur@).drop_last() =~= done);
            assert(counts@[b as int] <= done.len());
            counts.set(b, counts[b] + 1);
            cur = String::new();
        }
        idx = idx + 1;
    }
    let ghost st = scan_tokens(chars@, alnum@);
    assert(chars@.take(chars@.len() as int) =~= chars@);
    assert(alnum@.take(alnum@.len() as int) =~= alnum@);
    if !cur.as_str().is_empty() {
        proof {
            lemma_scan_sizes(chars@, alnum@);
            lemma_histogram_shape(st.0);
        }
        let b = (fxhash(cur.as_str()) % 64) as usize;
        assert(st.0.push(cur@).drop_last() =~= st.0);
        counts.set(b, counts[b] + 1);
    }
    counts
}

/// Per-bucket token counts of `text`: its maximal runs of alphanumeric characters
/// are hashed and counted in bucket `hash % 64`. These are the un-normalised
/// coordinates of its embedding.
pub fn token_buckets(text: &str) -> (counts: Vec<u64>)
    ensures
        counts@.len() == EMBEDDING_BUCKETS,
        forall|i: int| 0 <= i < EMBEDDING_BUCKETS ==> #[trigger] counts@[i] == bucket_histogram(
            tokens(text@, alnum_flags(text@)),
        )[i],
{
    let chars = chars_of(text);
    let mut flags: Vec<bool> = Vec::new();
    let mut i: usize = 0;
    while i < chars.len()
        invariant
            chars@ == text@,
            i <= chars@.len(),
            flags@ == alnum_flags(text@).take(i as int),
        decreases chars.len() - i,
    {
        let f = is_alphanumeric(chars[i]);
        flags.push(f);
        assert(alnum_flags(text@).take(i + 1) =~= alnum_flags(text@).take(i as int).push(f));
        i = i + 1;
    }
    assert(alnum_flags(text@).take(chars@.len() as int) =~= alnum_flags(text@));
    bucket_counts(&chars, &flags)
}

/// The text the scoring rules are matched against: `"{url} {filename}"`, lowercased.
pub open spec fn scoring_text(url: Seq<char>, filename: Seq<char>) -> Seq<char> {
    lowercase(url + seq![' '] + filename)
}

/// What `str::to_lowercase` returns for `s` (full Unicode case mapping).
pub uninterp spec fn lowercase(s: Seq<char>) -> Seq<char>;

/// `str::to_lowercase`.
#[verifier::external_body]
fn to_lowercase(s: &str) -> (r: String)
    ensures
        r@ == lowercase(s@),
{
    s.to_lowercase()
}

/// For each needle, whether it occurs in `text`.
pub fn needle_hits(text: &str, needles: &Vec<String>) -> (hits: Vec<bool>)
    ensures
        hits@.len() == needles@.len(),
        forall|i: int| 0 <= i < needles@.len() ==> #[trigger] hits@[i] == spec_contains(text@, needles@[i]@),
{
    let mut hits: Vec<bool> = Vec::new();
    let mut i: usize = 0;
    while i < needles.len()
        invariant
            i <= needles@.len(),
            hits@.len() == i,
            forall|j: int| 0 <= j < i ==> #[trigger] hits@[j] == spec_contains(text@, needles@[j]@),
        decreases needles.len() - i,
    {
        let hit = contains_text(text, needles[i].as_str());
        hits.push(hit);
        i = i + 1;
    }
    hits
}

/// For each rule needle, whether it occurs in the lowercased `"{url} {filename}"`;
/// a task's priority is `0.1` plus the boosts of the rules that hit.
pub fn rule_hits(url: &str, filename: &str, needles: &Vec<String>) -> (hits: Vec<bool>)
    ensures
        hits@.len() == needles@.len(),
        forall|i: int| 0 <= i < needles@.len() ==> #[trigger] hits@[i] == spec_contains(
            scoring_text(url@, filename@),
            needles@[i]@,
        ),
{
    let mut joined = url.to_owned();
    push_char(&mut joined, ' ');
    assert(joined@ == url@.push(' '));
    joined.append(filename);
    assert(joined@ == url@.push(' ') + filename@);
    assert(url@.push(' ') =~= url@ + seq![' ']);
    let lower = to_lowercase(joined.as_str());
    needle_hits(lower.as_str(), needles)
}

} // verus!
