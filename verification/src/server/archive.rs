//! The storage seam: what an archive is handed, what it hands back, and how its keys are paged.

use vstd::prelude::*;
use vstd::seq_lib;

use crate::count::NonZeroU32;
use crate::key;
use crate::key::ObjectName;
use crate::path;
use crate::text;
use crate::wire::attestation::Attestation;

verus! {

/// One accepted submission: the bytes to store under `name`, and the key and signature beside
/// them.
#[derive(Debug)]
pub struct StoredSubmission<'a> {
    pub name: ObjectName,
    pub attestation: Attestation,
    /// The body as received: compressed, signed, untouched.
    pub wire_bytes: &'a [u8],
}

impl<'a> StoredSubmission<'a> {
    /// The key it is stored under.
    pub fn object_key(&self) -> (r: String)
        requires
            key::stampable(self.name.id),
        ensures
            r@ == self.name@.key(),
    {
        self.name.to_key()
    }
}

/// A stored object read back: its bytes, the key and signature written beside them, and the name
/// it was filed under.
#[derive(Debug)]
pub struct FetchedObject {
    pub name: ObjectName,
    pub attestation: Attestation,
    pub wire_bytes: Vec<u8>,
}

/// Why an archive did not do what it was asked.
#[derive(Debug)]
pub enum ArchiveError {
    Io { key: String, reason: String },
    /// The one fetch failure that is the client's mistake rather than the archive's.
    NoSuchObject { key: String },
    Fetch { key: String, reason: String },
    /// No key can be read off this endpoint and no retry changes that.
    EndpointUnusable { endpoint: String },
    Upload { key: String, attempts: u32, reason: String },
    List { reason: String },
}

/// What an `ArchiveError` is, over plain values.
pub enum ArchiveFault {
    Io { key: Seq<char>, reason: Seq<char> },
    NoSuchObject { key: Seq<char> },
    Fetch { key: Seq<char>, reason: Seq<char> },
    EndpointUnusable { endpoint: Seq<char> },
    Upload { key: Seq<char>, attempts: int, reason: Seq<char> },
    List { reason: Seq<char> },
}

impl View for ArchiveError {
    type V = ArchiveFault;

    open spec fn view(&self) -> ArchiveFault {
        match *self {
            ArchiveError::Io { key, reason } => ArchiveFault::Io { key: key@, reason: reason@ },
            ArchiveError::NoSuchObject { key } => ArchiveFault::NoSuchObject { key: key@ },
            ArchiveError::Fetch { key, reason } => ArchiveFault::Fetch {
                key: key@,
                reason: reason@,
            },
            ArchiveError::EndpointUnusable { endpoint } => ArchiveFault::EndpointUnusable {
                endpoint: endpoint@,
            },
            ArchiveError::Upload { key, attempts, reason } => ArchiveFault::Upload {
                key: key@,
                attempts: attempts as int,
                reason: reason@,
            },
            ArchiveError::List { reason } => ArchiveFault::List { reason: reason@ },
        }
    }
}

impl ArchiveFault {
    /// What an operator reads.
    pub open spec fn spelled(self) -> Seq<char> {
        match self {
            ArchiveFault::Io { key, reason } => "storing "@ + key + ": "@ + reason,
            ArchiveFault::NoSuchObject { key } => "no object "@ + key,
            ArchiveFault::Fetch { key, reason } => "fetching "@ + key + ": "@ + reason,
            ArchiveFault::EndpointUnusable { endpoint } => endpoint
                + " answered a GET with no Content-Length"@,
            ArchiveFault::Upload { key, attempts, reason } => "storing "@ + key + ": "@ + reason
                + " (after "@ + text::decimal(attempts) + " attempts)"@,
            ArchiveFault::List { reason } => "listing the archive: "@ + reason,
        }
    }
}

impl ArchiveError {
    /// What an operator reads.
    pub fn message(&self) -> (r: String)
        ensures
            r@ == self@.spelled(),
    {
        match self {
            ArchiveError::Io { key, reason } => {
                let mut r = String::from_str("storing ");
                r.append(key.as_str());
                r.append(": ");
                r.append(reason.as_str());
                r
            },
            ArchiveError::NoSuchObject { key } => {
                let mut r = String::from_str("no object ");
                r.append(key.as_str());
                r
            },
            ArchiveError::Fetch { key, reason } => {
                let mut r = String::from_str("fetching ");
                r.append(key.as_str());
                r.append(": ");
                r.append(reason.as_str());
                r
            },
            ArchiveError::EndpointUnusable { endpoint } => {
                let mut r = endpoint.clone();
                r.append(" answered a GET with no Content-Length");
                r
            },
            ArchiveError::Upload { key, attempts, reason } => {
                let mut r = String::from_str("storing ");
                r.append(key.as_str());
                r.append(": ");
                r.append(reason.as_str());
                r.append(" (after ");
                r.append(text::decimal_of(*attempts as u128).as_str());
                r.append(" attempts)");
                r
            },
            ArchiveError::List { reason } => {
                let mut r = String::from_str("listing the archive: ");
                r.append(reason.as_str());
                r
            },
        }
    }
}

/// One bounded page of an archive's keys, in key order.
#[derive(Debug, PartialEq, Eq)]
pub struct Page {
    pub keys: Vec<String>,
    /// There is more after the last key. Reported rather than implied: a caller reading a short
    /// page as the whole archive would silently miss everything past it.
    pub truncated: bool,
}

/// The keys a page is made of: those that begin with `prefix` and stand after `after`.
pub open spec fn on_page(prefix: Seq<char>, after: Seq<char>) -> spec_fn(Seq<char>) -> bool {
    |key: Seq<char>| text::begins(key, prefix) && text::before(after, key)
}

/// `key` put into a run of keys in order, before the first that does not stand before it.
pub open spec fn put_in_order(keys: Seq<Seq<char>>, key: Seq<char>) -> Seq<Seq<char>>
    decreases keys.len(),
{
    if keys.len() == 0 || !text::before(keys[0], key) {
        seq![key] + keys
    } else {
        seq![keys[0]] + put_in_order(keys.skip(1), key)
    }
}

/// Keys put in order.
pub open spec fn in_order(keys: Seq<Seq<char>>) -> Seq<Seq<char>>
    decreases keys.len(),
{
    if keys.len() == 0 {
        keys
    } else {
        put_in_order(in_order(keys.drop_last()), keys.last())
    }
}

/// Whether no key stands before one that it follows.
pub open spec fn ordered(keys: Seq<Seq<char>>) -> bool {
    forall|i: int, j: int|
        0 <= i < j < keys.len() ==> !text::before(#[trigger] keys[j], #[trigger] keys[i])
}

proof fn lemma_put_in_order(keys: Seq<Seq<char>>, key: Seq<char>)
    requires
        ordered(keys),
    ensures
        ordered(put_in_order(keys, key)),
        put_in_order(keys, key).to_multiset() == keys.to_multiset().insert(key),
        put_in_order(keys, key).len() == keys.len() + 1,
        forall|i: int|
            0 <= i < put_in_order(keys, key).len() ==> #[trigger] put_in_order(keys, key)[i] == key
                || keys.contains(put_in_order(keys, key)[i]),
    decreases keys.len(),
{
    let r = put_in_order(keys, key);
    if keys.len() == 0 || !text::before(keys[0], key) {
        assert(r =~= keys.insert(0, key));
        seq_lib::to_multiset_insert(keys, 0, key);
        assert forall|i: int, j: int| 0 <= i < j < r.len() implies !text::before(
            #[trigger] r[j],
            #[trigger] r[i],
        ) by {
            if i == 0 {
                if text::before(r[j], key) {
                    assert(r[j] == keys[j - 1]);
                    if j - 1 > 0 {
                        assert(!text::before(keys[j - 1], keys[0]));
                        text::lemma_before_total(keys[0], keys[j - 1]);
                        if keys[0] != keys[j - 1] {
                            text::lemma_before_transitive(keys[0], keys[j - 1], key);
                        }
                    }
                }
            } else {
                assert(r[i] == keys[i - 1]);
                assert(r[j] == keys[j - 1]);
            }
        }
        assert forall|i: int| 0 <= i < r.len() implies #[trigger] r[i] == key || keys.contains(
            r[i],
        ) by {
            if i > 0 {
                assert(r[i] == keys[i - 1]);
            }
        }
    } else {
        let rest = keys.skip(1);
        assert(ordered(rest)) by {
            assert forall|i: int, j: int| 0 <= i < j < rest.len() implies !text::before(
                #[trigger] rest[j],
                #[trigger] rest[i],
            ) by {
                assert(rest[i] == keys[i + 1]);
                assert(rest[j] == keys[j + 1]);
            }
        }
        lemma_put_in_order(rest, key);
        let put = put_in_order(rest, key);
        assert(r =~= put.insert(0, keys[0]));
        seq_lib::to_multiset_insert(put, 0, keys[0]);
        assert(keys =~= rest.insert(0, keys[0]));
        seq_lib::to_multiset_insert(rest, 0, keys[0]);
        assert(r.to_multiset() =~= keys.to_multiset().insert(key));
        assert forall|i: int, j: int| 0 <= i < j < r.len() implies !text::before(
            #[trigger] r[j],
            #[trigger] r[i],
        ) by {
            assert(r[j] == put[j - 1]);
            if i == 0 {
                if put[j - 1] == key {
                    if text::before(key, keys[0]) {
                        text::lemma_before_transitive(keys[0], key, keys[0]);
                        text::lemma_before_irreflexive(keys[0]);
                    }
                } else {
                    assert(rest.contains(put[j - 1]));
                    let k = choose|k: int| 0 <= k < rest.len() && rest[k] == put[j - 1];
                    assert(keys[k + 1] == put[j - 1]);
                    assert(!text::before(keys[k + 1], keys[0]));
                }
            } else {
                assert(r[i] == put[i - 1]);
            }
        }
        assert forall|i: int| 0 <= i < r.len() implies #[trigger] r[i] == key || keys.contains(
            r[i],
        ) by {
            if i > 0 {
                assert(r[i] == put[i - 1]);
                if put[i - 1] != key {
                    let k = choose|k: int| 0 <= k < rest.len() && rest[k] == put[i - 1];
                    assert(keys[k + 1] == put[i - 1]);
                }
            } else {
                assert(r[0] == keys[0]);
            }
        }
    }
}

/// Keys put in order are in order, and are the same keys.
pub proof fn in_order_is_ordered(keys: Seq<Seq<char>>)
    ensures
        ordered(in_order(keys)),
        in_order(keys).to_multiset() == keys.to_multiset(),
        in_order(keys).len() == keys.len(),
    decreases keys.len(),
{
    if keys.len() > 0 {
        in_order_is_ordered(keys.drop_last());
        lemma_put_in_order(in_order(keys.drop_last()), keys.last());
        assert(keys =~= keys.drop_last().push(keys.last()));
        seq_lib::to_multiset_build(keys.drop_last(), keys.last());
    }
}

fn put(keys: &mut Vec<String>, key: String)
    ensures
        text::views(final(keys)@) == put_in_order(text::views(old(keys)@), key@),
{
    let ghost words = text::views(keys@);
    let mut at: usize = 0;
    assert(words.take(0) + put_in_order(words.skip(0), key@) =~= put_in_order(words, key@)) by {
        assert(words.skip(0) =~= words);
    }
    while at < keys.len() && text::precedes(keys[at].as_str(), key.as_str())
        invariant
            words == text::views(keys@),
            at <= keys@.len(),
            put_in_order(words, key@) == words.take(at as int) + put_in_order(
                words.skip(at as int),
                key@,
            ),
        decreases keys@.len() - at,
    {
        proof {
            let rest = words.skip(at as int);
            assert(rest[0] == keys@[at as int]@);
            assert(rest.skip(1) =~= words.skip(at + 1));
            assert(words.take(at + 1) =~= words.take(at as int).push(rest[0]));
            assert(words.take(at as int) + put_in_order(rest, key@) =~= words.take(at + 1)
                + put_in_order(words.skip(at + 1), key@));
        }
        at += 1;
    }
    proof {
        if at < keys@.len() {
            assert(words.skip(at as int)[0] == keys@[at as int]@);
        }
    }
    keys.insert(at, key);
    assert(text::views(keys@) =~= words.insert(at as int, key@));
    assert(text::views(keys@) =~= words.take(at as int) + (seq![key@] + words.skip(at as int)));
}

/// Cut a page down to the bound, saying whether the bound cut it.
pub fn bounded(keys: Vec<String>, max_keys: NonZeroU32) -> (r: Page)
    ensures
        r.truncated == (keys@.len() > max_keys@),
        text::views(r.keys@) == if keys@.len() > max_keys@ {
            text::views(keys@).take(max_keys@)
        } else {
            text::views(keys@)
        },
{
    let max: usize = max_keys.get() as usize;
    let truncated: bool = keys.len() > max;
    let mut kept = keys;
    let ghost words = text::views(kept@);
    if truncated {
        kept.truncate(max);
        assert(text::views(kept@) =~= words.take(max as int));
    }
    Page { keys: kept, truncated }
}

/// The page of an archive that holds `keys`: those the filters keep, in key order, up to the
/// bound, and whether the bound cut it.
pub open spec fn page_held(
    keys: Seq<Seq<char>>,
    prefix: Seq<char>,
    after: Seq<char>,
    max_keys: int,
) -> (Seq<Seq<char>>, bool) {
    let all = in_order(keys.filter(on_page(prefix, after)));
    if all.len() > max_keys {
        (all.take(max_keys), true)
    } else {
        (all, false)
    }
}

/// The page of an archive that holds `keys`: see `page_held`.
pub fn page(keys: &[String], prefix: &str, after: &str, max_keys: NonZeroU32) -> (r: Page)
    ensures
        (text::views(r.keys@), r.truncated) == page_held(
            text::views(keys@),
            prefix@,
            after@,
            max_keys@,
        ),
{
    let ghost words = text::views(keys@);
    let mut kept: Vec<String> = Vec::new();
    assert(words.take(0).filter(on_page(prefix@, after@)) =~= Seq::<Seq<char>>::empty()) by {
        reveal(Seq::filter);
    }
    for i in 0..keys.len()
        invariant
            words == text::views(keys@),
            text::views(kept@) == in_order(words.take(i as int).filter(on_page(prefix@, after@))),
    {
        let key = keys[i].as_str();
        proof {
            assert(words.take(i + 1).drop_last() =~= words.take(i as int));
            assert(words.take(i + 1).last() == key@);
            reveal(Seq::filter);
            let before = words.take(i as int).filter(on_page(prefix@, after@));
            assert(before.push(key@).drop_last() =~= before);
        }
        if text::starts_with(key, prefix) && text::precedes(after, key) {
            put(&mut kept, keys[i].clone());
        }
    }
    assert(words.take(words.len() as int) =~= words);
    assert(text::views(kept@).len() == kept@.len());
    bounded(kept, max_keys)
}

/// A page is in key order, and every key on it begins with the prefix and stands after the cursor.
pub proof fn page_is_in_key_order(
    keys: Seq<Seq<char>>,
    prefix: Seq<char>,
    after: Seq<char>,
    n: int,
)
    requires
        0 <= n <= in_order(keys.filter(on_page(prefix, after))).len(),
    ensures
        ordered(in_order(keys.filter(on_page(prefix, after))).take(n)),
        forall|i: int|
            0 <= i < n ==> text::begins(
                #[trigger] in_order(keys.filter(on_page(prefix, after)))[i],
                prefix,
            ) && text::before(after, in_order(keys.filter(on_page(prefix, after)))[i]),
{
    let kept = keys.filter(on_page(prefix, after));
    in_order_is_ordered(kept);
    let all = in_order(kept);
    assert forall|i: int, j: int| 0 <= i < j < n implies !text::before(
        #[trigger] all.take(n)[j],
        #[trigger] all.take(n)[i],
    ) by {
        assert(all.take(n)[i] == all[i]);
        assert(all.take(n)[j] == all[j]);
    }
    assert forall|i: int| 0 <= i < n implies text::begins(#[trigger] all[i], prefix)
        && text::before(after, all[i]) by {
        seq_lib::to_multiset_contains(all, all[i]);
        seq_lib::to_multiset_contains(kept, all[i]);
        assert(all.contains(all[i]));
        assert(kept.contains(all[i]));
        keys.lemma_filter_contains_rev(on_page(prefix, after), all[i]);
        let k = choose|k: int| 0 <= k < kept.len() && kept[k] == all[i];
        keys.lemma_filter_pred(on_page(prefix, after), k);
    }
}

proof fn lemma_filter_distinct(keys: Seq<Seq<char>>, keep: spec_fn(Seq<char>) -> bool)
    requires
        keys.no_duplicates(),
    ensures
        keys.filter(keep).no_duplicates(),
    decreases keys.len(),
{
    reveal(Seq::filter);
    if keys.len() > 0 {
        let rest = keys.drop_last();
        lemma_filter_distinct(rest, keep);
        let last = keys.last();
        if keep(last) && rest.filter(keep).contains(last) {
            rest.lemma_filter_contains_rev(keep, last);
            let k = choose|k: int| 0 <= k < rest.len() && rest[k] == last;
            assert(keys[k] == keys[keys.len() - 1]);
        }
    }
}

proof fn lemma_filter_member(
    keys: Seq<Seq<char>>,
    keep: spec_fn(Seq<char>) -> bool,
    key: Seq<char>,
)
    ensures
        keys.filter(keep).contains(key) <==> keys.contains(key) && keep(key),
{
    let kept = keys.filter(keep);
    if kept.contains(key) {
        keys.lemma_filter_contains_rev(keep, key);
        let k = choose|k: int| 0 <= k < kept.len() && kept[k] == key;
        keys.lemma_filter_pred(keep, k);
    }
    if keys.contains(key) && keep(key) {
        let k = choose|k: int| 0 <= k < keys.len() && keys[k] == key;
        keys.lemma_filter_contains(keep, k);
    }
}

/// The members of a run of distinct keys put in order: the same ones, and each stands before the
/// next.
proof fn lemma_in_order_strictly(keys: Seq<Seq<char>>)
    requires
        keys.no_duplicates(),
    ensures
        in_order(keys).no_duplicates(),
        forall|key: Seq<char>| #[trigger] in_order(keys).contains(key) <==> keys.contains(key),
        forall|i: int, j: int|
            0 <= i < j < in_order(keys).len() ==> text::before(
                #[trigger] in_order(keys)[i],
                #[trigger] in_order(keys)[j],
            ),
{
    let all = in_order(keys);
    in_order_is_ordered(keys);
    keys.lemma_multiset_has_no_duplicates();
    all.lemma_multiset_has_no_duplicates_conv();
    assert forall|key: Seq<char>| #[trigger] all.contains(key) <==> keys.contains(key) by {
        seq_lib::to_multiset_contains(all, key);
        seq_lib::to_multiset_contains(keys, key);
    }
    assert forall|i: int, j: int| 0 <= i < j < all.len() implies text::before(
        #[trigger] all[i],
        #[trigger] all[j],
    ) by {
        text::lemma_before_total(all[i], all[j]);
    }
}

/// Two runs of the same keys, each of them strictly in order, are one run.
proof fn lemma_in_order_unique(a: Seq<Seq<char>>, b: Seq<Seq<char>>)
    requires
        forall|i: int, j: int|
            0 <= i < j < a.len() ==> text::before(#[trigger] a[i], #[trigger] a[j]),
        forall|i: int, j: int|
            0 <= i < j < b.len() ==> text::before(#[trigger] b[i], #[trigger] b[j]),
        forall|key: Seq<char>| #[trigger] a.contains(key) <==> b.contains(key),
    ensures
        a == b,
    decreases a.len(),
{
    if a.len() == 0 {
        if b.len() > 0 {
            assert(b.contains(b[0]));
            assert(a.contains(b[0]));
        }
        assert(a =~= b);
    } else {
        assert(a.contains(a[0]));
        assert(b.contains(a[0]));
        let k = choose|k: int| 0 <= k < b.len() && b[k] == a[0];
        assert(b.contains(b[0]));
        assert(a.contains(b[0]));
        let l = choose|l: int| 0 <= l < a.len() && a[l] == b[0];
        if k > 0 {
            // The two runs would each begin with a key that the other one has further on.
            assert(text::before(b[0], b[k]));
            if l > 0 {
                assert(text::before(a[0], a[l]));
                text::lemma_before_transitive(b[0], a[0], b[0]);
            }
            text::lemma_before_irreflexive(b[0]);
        }
        assert(a[0] == b[0]);
        let rest_a = a.skip(1);
        let rest_b = b.skip(1);
        assert forall|key: Seq<char>| #[trigger] rest_a.contains(key) <==> rest_b.contains(key) by {
            if rest_a.contains(key) {
                let i = choose|i: int| 0 <= i < rest_a.len() && rest_a[i] == key;
                assert(a[i + 1] == key);
                assert(text::before(a[0], a[i + 1]));
                text::lemma_before_irreflexive(key);
                assert(a.contains(key));
                let j = choose|j: int| 0 <= j < b.len() && b[j] == key;
                assert(rest_b[j - 1] == key);
            }
            if rest_b.contains(key) {
                let i = choose|i: int| 0 <= i < rest_b.len() && rest_b[i] == key;
                assert(b[i + 1] == key);
                assert(text::before(b[0], b[i + 1]));
                text::lemma_before_irreflexive(key);
                assert(b.contains(key));
                assert(a.contains(key));
                let j = choose|j: int| 0 <= j < a.len() && a[j] == key;
                assert(rest_a[j - 1] == key);
            }
        }
        lemma_in_order_unique(rest_a, rest_b);
        assert(a =~= seq![a[0]] + rest_a);
        assert(b =~= seq![b[0]] + rest_b);
    }
}

/// A caller that passes the last key of a page back as the cursor is answered with what comes after
/// that page: nothing is passed over and nothing comes twice.
pub proof fn next_page_resumes(
    keys: Seq<Seq<char>>,
    prefix: Seq<char>,
    after: Seq<char>,
    n: int,
)
    requires
        keys.no_duplicates(),
        0 < n <= in_order(keys.filter(on_page(prefix, after))).len(),
    ensures
        ({
            let all = in_order(keys.filter(on_page(prefix, after)));
            in_order(keys.filter(on_page(prefix, all[n - 1]))) == all.skip(n)
        }),
{
    let kept = keys.filter(on_page(prefix, after));
    let all = in_order(kept);
    let last = all[n - 1];
    let left = keys.filter(on_page(prefix, last));
    let rest = in_order(left);
    lemma_filter_distinct(keys, on_page(prefix, after));
    lemma_filter_distinct(keys, on_page(prefix, last));
    lemma_in_order_strictly(kept);
    lemma_in_order_strictly(left);
    assert(all.contains(last));
    lemma_filter_member(keys, on_page(prefix, after), last);
    assert forall|key: Seq<char>| #[trigger] rest.contains(key) <==> all.skip(n).contains(key) by {
        lemma_filter_member(keys, on_page(prefix, after), key);
        lemma_filter_member(keys, on_page(prefix, last), key);
        if rest.contains(key) {
            text::lemma_before_transitive(after, last, key);
            assert(all.contains(key));
            let k = choose|k: int| 0 <= k < all.len() && all[k] == key;
            if k < n {
                if k < n - 1 {
                    assert(text::before(all[k], all[n - 1]));
                    text::lemma_before_transitive(key, last, key);
                }
                text::lemma_before_irreflexive(key);
            }
            assert(all.skip(n)[k - n] == key);
        }
        if all.skip(n).contains(key) {
            let k = choose|k: int| 0 <= k < all.skip(n).len() && all.skip(n)[k] == key;
            assert(all[n + k] == key);
            assert(text::before(all[n - 1], all[n + k]));
            assert(all.contains(key));
        }
    }
    assert forall|i: int, j: int| 0 <= i < j < all.skip(n).len() implies text::before(
        #[trigger] all.skip(n)[i],
        #[trigger] all.skip(n)[j],
    ) by {
        assert(all.skip(n)[i] == all[n + i]);
        assert(all.skip(n)[j] == all[n + j]);
    }
    lemma_in_order_unique(rest, all.skip(n));
}

/// What a caller gathers that asks for one page after the other, `pages` of them at most, each from
/// the last key of the one before and until one is not cut short.
pub open spec fn gathered(
    keys: Seq<Seq<char>>,
    prefix: Seq<char>,
    after: Seq<char>,
    max_keys: int,
    pages: nat,
) -> Seq<Seq<char>>
    decreases pages,
{
    let (page, truncated) = page_held(keys, prefix, after, max_keys);
    if pages == 0 {
        Seq::empty()
    } else if truncated {
        page + gathered(keys, prefix, page.last(), max_keys, (pages - 1) as nat)
    } else {
        page
    }
}

/// Paging hands over every key under a prefix that comes after the cursor, once and in key order,
/// however few keys a page may hold.
pub proof fn paging_reaches_every_key(
    keys: Seq<Seq<char>>,
    prefix: Seq<char>,
    after: Seq<char>,
    max_keys: int,
    pages: nat,
)
    requires
        keys.no_duplicates(),
        max_keys > 0,
        pages >= in_order(keys.filter(on_page(prefix, after))).len(),
    ensures
        gathered(keys, prefix, after, max_keys, pages) == in_order(
            keys.filter(on_page(prefix, after)),
        ),
    decreases pages,
{
    let all = in_order(keys.filter(on_page(prefix, after)));
    if pages > 0 && all.len() > max_keys {
        next_page_resumes(keys, prefix, after, max_keys);
        paging_reaches_every_key(keys, prefix, all[max_keys - 1], max_keys, (pages - 1) as nat);
        assert(all =~= all.take(max_keys) + all.skip(max_keys));
    } else {
        assert(gathered(keys, prefix, after, max_keys, pages) =~= all);
    }
}

/// Objects as files under a root directory, keyed exactly as a bucket keys them.
#[derive(Debug)]
pub struct FilesystemArchive {
    pub root: String,
}

/// What opening an object's file came to.
#[derive(Debug)]
pub enum Opened {
    Found { length: u64 },
    NotFound,
    Failed { reason: String },
}

impl FilesystemArchive {
    /// The archive under a root.
    pub fn new(root: &str) -> (r: FilesystemArchive)
        ensures
            r.root@ == root@,
    {
        FilesystemArchive { root: String::from_str(root) }
    }

    /// Where this archive is, for a message about its listing.
    pub fn location(&self) -> (r: &str)
        ensures
            r@ == self.root@,
    {
        self.root.as_str()
    }

    /// Where an object is stored.
    pub fn path_of(&self, name: &ObjectName) -> (r: String)
        requires
            key::stampable(name.id),
        ensures
            r@ == path::joined_to(self.root@, name@.key()),
    {
        path::join(self.root.as_str(), name.to_key().as_str())
    }

    /// The file a key is read from. Parsed before it is joined: a key that is not an object name
    /// is the only way a path outside the root could be reached.
    pub fn locate(&self, key: &str) -> (r: Result<String, ArchiveError>)
        ensures
            match r {
                Ok(path) => key::parsed(key@) is Ok && path@ == path::joined_to(self.root@, key@),
                Err(error) => key::parsed(key@) matches Err(reason) && error@ == (
                ArchiveFault::Fetch { key: key@, reason: key::key_fault_text(key@, reason) }),
            },
    {
        match ObjectName::parse(key) {
            Err(error) => Err(
                ArchiveError::Fetch { key: String::from_str(key), reason: error.message() },
            ),
            Ok(name) => {
                proof {
                    key::parsed_key_is_canonical(key@);
                }
                Ok(self.path_of(&name))
            },
        }
    }

    /// What opening an object's file comes to: how long it is, that there is none, or that it
    /// cannot be read.
    pub fn opened(key: &str, opened: Opened) -> (r: Result<u64, ArchiveError>)
        ensures
            match opened {
                Opened::Found { length } => r == Ok::<u64, ArchiveError>(length),
                Opened::NotFound => r matches Err(error) && error@ == (ArchiveFault::NoSuchObject {
                    key: key@,
                }),
                Opened::Failed { reason } => r matches Err(error) && error@ == (
                ArchiveFault::Fetch { key: key@, reason: reason@ }),
            },
    {
        match opened {
            Opened::Found { length } => Ok(length),
            Opened::NotFound => Err(ArchiveError::NoSuchObject { key: String::from_str(key) }),
            Opened::Failed { reason } => Err(
                ArchiveError::Fetch { key: String::from_str(key), reason },
            ),
        }
    }
}

/// A directory that cannot be listed.
pub fn unreadable(path: &str, error: &str) -> (r: ArchiveError)
    ensures
        r@ == (ArchiveFault::List { reason: path@ + ": "@ + error@ }),
{
    let mut reason = String::from_str(path);
    reason.append(": ");
    reason.append(error);
    ArchiveError::List { reason }
}

/// What finding an archive's root comes to before it is walked. Only a root that is not there yet
/// is an empty archive: one that exists and cannot be read must fail, or it would be reported as
/// empty.
pub fn root_found(root: &str, outcome: Opened) -> (r: Result<bool, ArchiveError>)
    ensures
        match outcome {
            Opened::Found { .. } => r == Ok::<bool, ArchiveError>(true),
            Opened::NotFound => r == Ok::<bool, ArchiveError>(false),
            Opened::Failed { reason } => r matches Err(error) && error@ == (ArchiveFault::List {
                reason: root@ + ": "@ + reason@,
            }),
        },
{
    match outcome {
        Opened::Found { .. } => Ok(true),
        Opened::NotFound => Ok(false),
        Opened::Failed { reason } => Err(unreadable(root, reason.as_str())),
    }
}

/// A listing leaves nothing out: every held key that begins with the prefix and stands behind where
/// the page starts is on it, and a page that does not go on holds them all.
pub proof fn a_listing_leaves_nothing_out(
    keys: Seq<Seq<char>>,
    prefix: Seq<char>,
    after: Seq<char>,
    max_keys: int,
    key: Seq<char>,
)
    requires
        max_keys >= 0,
    ensures
        ({
            let (page, truncated) = page_held(keys, prefix, after, max_keys);
            let wanted = keys.contains(key) && prefix.len() <= key.len() && key.take(
                prefix.len() as int,
            ) == prefix && text::before(after, key);
            &&& in_order(keys.filter(on_page(prefix, after))).contains(key) <==> wanted
            &&& page.contains(key) ==> wanted
            &&& !truncated ==> (page.contains(key) <==> wanted)
            &&& truncated ==> page.len() == max_keys
            &&& truncated && wanted && !page.contains(key) && max_keys > 0 ==> !text::before(
                key,
                page.last(),
            )
        }),
{
    let chosen = keys.filter(on_page(prefix, after));
    let all = in_order(chosen);
    in_order_is_ordered(chosen);
    assert(all.contains(key) <==> chosen.contains(key)) by {
        chosen.to_multiset_ensures();
        all.to_multiset_ensures();
        assert(chosen.to_multiset().count(key) == all.to_multiset().count(key));
    }
    assert(chosen.contains(key) <==> keys.contains(key) && on_page(prefix, after)(key)) by {
        if chosen.contains(key) {
            keys.lemma_filter_contains_rev(on_page(prefix, after), key);
            let i = choose|i: int| 0 <= i < chosen.len() && chosen[i] == key;
            keys.lemma_filter_pred(on_page(prefix, after), i);
        }
        if keys.contains(key) && on_page(prefix, after)(key) {
            let i = choose|i: int| 0 <= i < keys.len() && keys[i] == key;
            keys.lemma_filter_contains(on_page(prefix, after), i);
        }
    }
    let (page, truncated) = page_held(keys, prefix, after, max_keys);
    if truncated {
        assert(page.contains(key) ==> all.contains(key)) by {
            if page.contains(key) {
                let i = choose|i: int| 0 <= i < page.len() && page[i] == key;
                assert(all[i] == key);
            }
        }
        if all.contains(key) && !page.contains(key) && max_keys > 0 {
            let i = choose|i: int| 0 <= i < all.len() && all[i] == key;
            if i < max_keys {
                assert(page[i] == key);
            }
            assert(page.last() == all[max_keys - 1]);
        }
    }
}

/// Only what names an object is looked for, and below the root: a key that names none is refused
/// before there is a path.
pub proof fn only_an_object_is_looked_for(
    archive: &FilesystemArchive,
    key: &str,
    given: Result<String, ArchiveError>,
)
    requires
        call_ensures(FilesystemArchive::locate, (archive, key), given),
    ensures
        given is Ok <==> key::parsed(key@) is Ok,
        given matches Ok(found) ==> (key::pool_reads_back(key::parsed(key@)->Ok_0.pool)
            ==> text::begins(found@, archive.root@) && text::ends(found@, key@)),
{
    if let Ok(name) = key::parsed(key@) {
        if key::pool_reads_back(name.pool) {
            key::parsed_key_is_canonical(key@);
            key::a_key_stays_below(name);
            path::below_is_under_its_base(archive.root@, key@);
        }
    }
}

}
