use vstd::multiset::Multiset;
use vstd::prelude::*;

use crate::address::Address;
use crate::cross_reference::{
    deviation_bps, spec_add_reference_oracle, spec_remove_reference_oracle,
    spec_set_cross_ref_deviation_threshold, threshold_bps, DEFAULT_CROSS_REF_DEVIATION_BPS,
};
use crate::keyed_map::KeyedMap;
use crate::median::{lemma_sorted_prices, median, sorted_prices};
use crate::oracle::{
    Call, ConfigModel, addresses_distinct, contains_address, contributions, differs_from, latest_timestamp,
    lemma_filter_out, prices_of, OracleModel,
    DEFAULT_DECIMALS, DEFAULT_MAX_HISTORY, DEFAULT_MIN_SOURCES,
};
use crate::types::{AggregatePrice, ErrorCode, PriceEntry, PriceHistoryEntry, ReferenceOracleEntry};

verus! {

/// Initialization succeeds exactly once. On an oracle that is not
/// initialized it stores the admin, the decimals and the description, and
/// the minimum number of sources and the history length, 0 standing for
/// their defaults, with no sources yet; every later initialization fails
/// with `AlreadyInitialized`.
pub proof fn law_initialize_once(
    m: OracleModel,
    admin: Address,
    min_sources_required: u32,
    max_history_length: u32,
    decimals: u32,
    description: Vec<u8>,
    admin2: Address,
    min2: u32,
    max2: u32,
    decimals2: u32,
    description2: Vec<u8>,
)
    requires
        !m.is_initialized(),
    ensures
        m.initialize(admin, min_sources_required, max_history_length, decimals, description) is Ok,
        ({
            let m2 = m.initialize(
                admin,
                min_sources_required,
                max_history_length,
                decimals,
                description,
            ).unwrap();
            &&& m2.is_initialized()
            &&& m2.config.unwrap().admin == admin
            &&& m2.min_sources_required() == if min_sources_required > 0 {
                min_sources_required
            } else {
                DEFAULT_MIN_SOURCES
            }
            &&& m2.max_history_length() == if max_history_length > 0 {
                max_history_length
            } else {
                DEFAULT_MAX_HISTORY
            }
            &&& m2.decimals() == decimals
            &&& m2.description() == description@
            &&& m2.sources() == Seq::<Address>::empty()
            &&& m2.initialize(admin2, min2, max2, decimals2, description2) == Err::<
                OracleModel,
                ErrorCode,
            >(ErrorCode::AlreadyInitialized)
        }),
{
}

/// Before initialization the settings read as their defaults: one source
/// required, a history of 100, 18 decimals.
pub proof fn law_defaults(m: OracleModel)
    requires
        !m.is_initialized(),
    ensures
        m.min_sources_required() == 1,
        m.max_history_length() == 100,
        m.decimals() == 18,
        m.sources() == Seq::<Address>::empty(),
{
}

/// Reading a setting gives back what was last written to it, and writing
/// one setting leaves the others as they were.
pub proof fn law_settings_read_back(
    m: OracleModel,
    admin: Address,
    n: u32,
    description: Vec<u8>,
)
    requires
        m.is_initialized(),
    ensures
        m.set_admin(admin).config.unwrap().admin == admin,
        m.set_min_sources_required(n).min_sources_required() == n,
        m.set_max_history_length(n).max_history_length() == n,
        m.set_decimals(n).decimals() == n,
        m.set_description(description).description() == description@,
        ({
            let m2 = m.set_decimals(n);
            &&& m2.min_sources_required() == m.min_sources_required()
            &&& m2.max_history_length() == m.max_history_length()
            &&& m2.description() == m.description()
            &&& m2.config.unwrap().admin == m.config.unwrap().admin
            &&& m2.sources() == m.sources()
        }),
        ({
            let m2 = m.set_min_sources_required(n);
            &&& m2.decimals() == m.decimals()
            &&& m2.max_history_length() == m.max_history_length()
            &&& m2.sources() == m.sources()
            &&& m2.aggregates == m.aggregates
            &&& m2.submissions == m.submissions
        }),
{
}

/// Registering an unregistered asset makes it registered, with an empty
/// aggregate in the oracle's decimals; registering it again fails with
/// `AssetAlreadyRegistered`; unregistering it makes it unregistered again,
/// and unregistering an unregistered asset fails with `AssetNotRegistered`.
pub proof fn law_register_unregister(m: OracleModel, asset: Address)
    ensures
        !m.is_registered(asset@) ==> {
            let m2 = m.register_asset(asset).unwrap();
            &&& m.register_asset(asset) is Ok
            &&& m2.is_registered(asset@)
            &&& m2.aggregates[asset@] == AggregatePrice {
                price: 0,
                timestamp: 0,
                num_sources: 0,
                decimals: m.decimals(),
            }
            &&& m2.register_asset(asset) == Err::<OracleModel, ErrorCode>(
                ErrorCode::AssetAlreadyRegistered,
            )
            &&& m2.unregister_asset(asset) is Ok
            &&& !m2.unregister_asset(asset).unwrap().is_registered(asset@)
            &&& m.unregister_asset(asset) == Err::<OracleModel, ErrorCode>(
                ErrorCode::AssetNotRegistered,
            )
        },
        m.is_registered(asset@) ==> m.register_asset(asset) == Err::<OracleModel, ErrorCode>(
            ErrorCode::AssetAlreadyRegistered,
        ),
{
}

/// Adding a source that is not one makes it a source, named as given, at
/// the end of the list; adding it again fails with `SourceAlreadyExists`.
/// Removing a source makes it no source and leaves every other source;
/// removing it again fails with `SourceNotFound`. Neither ever puts an
/// address twice in the list.
pub proof fn law_sources(m: OracleModel, source: Address, name: Vec<u8>)
    requires
        m.is_initialized(),
        addresses_distinct(m.sources()),
    ensures
        !m.is_source(source@) ==> {
            let m2 = m.add_source(source, name).unwrap();
            &&& m.add_source(source, name) is Ok
            &&& m2.is_source(source@)
            &&& m2.sources() == m.sources().push(source)
            &&& m2.config.unwrap().metadata[source@] == name
            &&& addresses_distinct(m2.sources())
            &&& m2.add_source(source, name) == Err::<OracleModel, ErrorCode>(
                ErrorCode::SourceAlreadyExists,
            )
        },
        m.is_source(source@) ==> {
            let m2 = m.remove_source(source).unwrap();
            &&& m.remove_source(source) is Ok
            &&& !m2.is_source(source@)
            &&& forall|b: Seq<char>| b != source@ ==> (m2.is_source(b) <==> m.is_source(b))
            &&& !m2.config.unwrap().metadata.contains_key(source@)
            &&& addresses_distinct(m2.sources())
            &&& m2.remove_source(source) == Err::<OracleModel, ErrorCode>(
                ErrorCode::SourceNotFound,
            )
        },
{
    if !m.is_source(source@) {
        let m2 = m.add_source(source, name).unwrap();
        let s2 = m.sources().push(source);
        assert(s2[s2.len() - 1] == source);
        assert(m2.is_source(source@));
        assert forall|i: int, j: int| 0 <= i < j < s2.len() implies (#[trigger] s2[i])@
            != (#[trigger] s2[j])@ by {
            if j == s2.len() - 1 {
                assert(s2[i] == m.sources()[i]);
            } else {
                assert(s2[i] == m.sources()[i] && s2[j] == m.sources()[j]);
            }
        }
    }
    if m.is_source(source@) {
        lemma_filter_out(m.sources(), source@);
    }
}

/// A submission that passes the checks stores the source's price in the
/// oracle's decimals. When at least the required number of sources (and at
/// least one) have a price for the asset, the asset's aggregate becomes the
/// median of those prices, taken in source order as `get_all_prices` lists
/// them, with the latest of their timestamps and their number; otherwise
/// the aggregates stay as they were. The history changes only at the
/// submission's ledger, and only when the aggregate's price or timestamp
/// changed, where it records the new aggregate.
pub proof fn law_submission(
    m: OracleModel,
    source: Address,
    asset: Address,
    price: i128,
    timestamp: u64,
    ledger: u32,
)
    requires
        m.inv(),
        m.is_source(source@),
        m.is_registered(asset@),
        price > 0,
    ensures
        m.submit_price(source, asset, price, timestamp, ledger) is Ok,
        ({
            let m2 = m.submit_price(source, asset, price, timestamp, ledger).unwrap();
            let entries = contributions(m2.submissions, asset@, m2.sources());
            let a = m2.aggregates[asset@];
            &&& m2.submissions[(asset@, source@)] == PriceEntry {
                price,
                timestamp,
                source,
                decimals: m.decimals(),
            }
            &&& m2.sources() == m.sources()
            &&& m2.is_registered(asset@)
            &&& if entries.len() >= m.min_sources_required() && entries.len() > 0 {
                &&& a.price == median(prices_of(entries)) as i128
                &&& a.timestamp == latest_timestamp(entries)
                &&& a.num_sources == entries.len()
                &&& a.decimals == m.decimals()
                &&& m2.history == if m.aggregates[asset@].price != a.price
                    || m.aggregates[asset@].timestamp != a.timestamp {
                    m.history.insert(
                        (asset@, ledger),
                        PriceHistoryEntry {
                            price: a.price,
                            timestamp: a.timestamp,
                            ledger,
                            num_sources: a.num_sources,
                        },
                    )
                } else {
                    m.history
                }
            } else {
                &&& m2.aggregates == m.aggregates
                &&& m2.history == m.history
            }
        }),
{
    let subs = m.submissions_with(source, asset, price, timestamp);
    assert forall|k: (Seq<char>, Seq<char>)| #[trigger] subs.contains_key(k) implies subs[k].price
        > 0 by {
        if k != (asset@, source@) {
            assert(m.submissions.contains_key(k));
        }
    }
    crate::oracle::lemma_contributions_positive(subs, asset@, m.sources());
}

/// A rejected submission is rejected for the first failing check, in this
/// order: the submitter is not a source, the asset is not registered, the
/// price is not positive.
pub proof fn law_submission_rejections(
    m: OracleModel,
    source: Address,
    asset: Address,
    price: i128,
    timestamp: u64,
    ledger: u32,
)
    ensures
        !m.is_source(source@) ==> m.submit_price(source, asset, price, timestamp, ledger) == Err::<
            OracleModel,
            ErrorCode,
        >(ErrorCode::NotAuthorized),
        m.is_source(source@) && !m.is_registered(asset@) ==> m.submit_price(
            source,
            asset,
            price,
            timestamp,
            ledger,
        ) == Err::<OracleModel, ErrorCode>(ErrorCode::AssetNotRegistered),
        m.is_source(source@) && m.is_registered(asset@) && price <= 0 ==> m.submit_price(
            source,
            asset,
            price,
            timestamp,
            ledger,
        ) == Err::<OracleModel, ErrorCode>(ErrorCode::InvalidPrice),
{
}

/// The median does not depend on the order of the prices.
pub proof fn law_median_ignores_order(s: Seq<i128>, t: Seq<i128>)
    requires
        s.to_multiset() == t.to_multiset(),
    ensures
        median(s) == median(t),
{
    lemma_sorted_prices(s);
    lemma_sorted_prices(t);
    assert(sorted_prices(t) == sorted_prices(s));
}

/// The median of a single price is that price, and the median of any
/// prices lies between the smallest and the largest of them.
pub proof fn law_median_bounds(s: Seq<i128>, p: i128)
    ensures
        median(seq![p]) == p,
        s.len() > 0 ==> exists|i: int| 0 <= i < s.len() && s[i] <= median(s),
        s.len() > 0 ==> exists|i: int| 0 <= i < s.len() && median(s) <= s[i],
{
    lemma_sorted_prices(seq![p]);
    assert(sorted_prices(seq![p]) == seq![p]) by {
        assert(vstd::relations::sorted_by(seq![p], crate::median::price_le()));
    }
    if s.len() > 0 {
        lemma_sorted_prices(s);
        s.lemma_sort_by_ensures(crate::median::price_le());
        let t = sorted_prices(s);
        let n = s.len() as int;
        let (lo, hi) = if n % 2 == 0 {
            (n / 2 - 1, n / 2)
        } else {
            (n / 2, n / 2)
        };
        if lo < hi {
            assert(crate::median::price_le()(t[lo], t[hi]));
        }
        assert(t[lo] <= t[hi]);
        assert(t[lo] <= median(s) <= t[hi]);
        assert(t.contains(t[lo]) && t.contains(t[hi]));
        assert(s.contains(t[lo]) && s.contains(t[hi]));
    }
}

/// Registering a reference oracle stores its entry and lists it once,
/// however often it is registered; removing it drops its entry and lists
/// it no more. Neither ever lists a contract twice.
pub proof fn law_reference_oracles(
    m: OracleModel,
    contract_id: Address,
    asset_mapping: KeyedMap<Address, Address>,
    other_mapping: KeyedMap<Address, Address>,
)
    requires
        addresses_distinct(m.reference_list),
    ensures
        addresses_distinct(spec_add_reference_oracle(m, contract_id, asset_mapping).reference_list),
        addresses_distinct(spec_remove_reference_oracle(m, contract_id).reference_list),
        ({
            let m2 = spec_add_reference_oracle(m, contract_id, asset_mapping);
            &&& contains_address(m2.reference_list, contract_id@)
            &&& m2.reference_oracles[contract_id@] == ReferenceOracleEntry {
                contract_id,
                asset_mapping,
            }
            &&& spec_add_reference_oracle(m2, contract_id, other_mapping).reference_list
                == m2.reference_list
        }),
        ({
            let m3 = spec_remove_reference_oracle(m, contract_id);
            &&& !m3.reference_oracles.contains_key(contract_id@)
            &&& !contains_address(m3.reference_list, contract_id@)
        }),
{
    let m2 = spec_add_reference_oracle(m, contract_id, asset_mapping);
    if !contains_address(m.reference_list, contract_id@) {
        let s2 = m.reference_list.push(contract_id);
        assert(s2[m.reference_list.len() as int] == contract_id);
        assert forall|i: int, j: int| 0 <= i < j < s2.len() implies (#[trigger] s2[i])@
            != (#[trigger] s2[j])@ by {
            if j == s2.len() - 1 {
                assert(s2[i] == m.reference_list[i]);
            } else {
                assert(s2[i] == m.reference_list[i] && s2[j] == m.reference_list[j]);
            }
        }
    }
    lemma_filter_out(m.reference_list, contract_id@);
}

/// The deviation threshold is 500 basis points until one is set; a
/// threshold up to 100 000 is set and read back, a larger one fails with
/// `InvalidConfiguration` and leaves the oracle as it was.
pub proof fn law_threshold(m: OracleModel, threshold: u32)
    ensures
        m.cross_ref_threshold is None ==> threshold_bps(m) == DEFAULT_CROSS_REF_DEVIATION_BPS,
        threshold <= 100_000 ==> threshold_bps(
            spec_set_cross_ref_deviation_threshold(m, threshold).unwrap(),
        ) == threshold,
        threshold > 100_000 ==> spec_set_cross_ref_deviation_threshold(m, threshold) == Err::<
            OracleModel,
            ErrorCode,
        >(ErrorCode::InvalidConfiguration),
{
}

/// Equal prices deviate by 0 basis points, and so do prices of which either
/// is 0; every deviation fits a `u32`; and between positive prices whose
/// scaled difference fits an `i128` it is the difference times 10 000
/// divided by the reference price, rounded down.
pub proof fn law_deviation(our_price: i128, ref_price: i128)
    ensures
        deviation_bps(ref_price, ref_price) == 0,
        deviation_bps(0, ref_price) == 0,
        deviation_bps(our_price, 0) == 0,
        0 <= deviation_bps(our_price, ref_price) <= u32::MAX,
        our_price > 0 && ref_price > 0 && crate::cross_reference::abs(our_price - ref_price)
            * 10_000 <= i128::MAX && crate::cross_reference::abs(our_price - ref_price) * 10_000
            / (ref_price as int) <= u32::MAX ==> deviation_bps(our_price, ref_price)
            == crate::cross_reference::abs(our_price - ref_price) * 10_000 / (ref_price as int),
{
    if our_price != 0 && ref_price != 0 {
        let d = crate::cross_reference::abs(our_price - ref_price) * 10_000;
        let num = if d > i128::MAX {
            i128::MAX as int
        } else {
            d
        };
        let mag = crate::cross_reference::abs(ref_price as int);
        assert(num >= 0 && mag > 0);
        assert(num / mag >= 0) by (nonlinear_arith)
            requires
                num >= 0,
                mag > 0,
        ;
    }
}

/// Filtering by a predicate that every element meets keeps the sequence.
proof fn lemma_filter_keeps_all(s: Seq<Address>, pred: spec_fn(Address) -> bool)
    requires
        forall|i: int| 0 <= i < s.len() ==> pred(#[trigger] s[i]),
    ensures
        s.filter(pred) == s,
    decreases s.len(),
{
    if s.len() == 0 {
        assert(s.filter(pred) =~= s) by {
            reveal(Seq::filter);
        }
    } else {
        let rest = s.drop_last();
        assert forall|i: int| 0 <= i < rest.len() implies pred(#[trigger] rest[i]) by {
            assert(rest[i] == s[i]);
        }
        lemma_filter_keeps_all(rest, pred);
        assert(s =~= rest.push(s.last()));
        rest.lemma_filter_push(s.last(), pred);
        assert(pred(s[s.len() - 1]));
    }
}

/// Initializing the oracle, adding a source and removing one keep the
/// oracle's invariant: no source is listed twice, the names are keyed by
/// exactly the sources, and the rest of [`OracleModel::inv`].
pub proof fn law_sources_keep_invariant(
    m: OracleModel,
    admin: Address,
    min_sources_required: u32,
    max_history_length: u32,
    decimals: u32,
    description: Vec<u8>,
    source: Address,
    name: Vec<u8>,
)
    requires
        m.inv(),
    ensures
        !m.is_initialized() ==> m.initialize(
            admin,
            min_sources_required,
            max_history_length,
            decimals,
            description,
        ).unwrap().inv(),
        m.is_initialized() && !m.is_source(source@) && m.sources().len() < u32::MAX ==> m.add_source(
            source,
            name,
        ).unwrap().inv(),
        m.is_initialized() && m.is_source(source@) ==> m.remove_source(source).unwrap().inv(),
{
    if !m.is_initialized() {
        let m2 = m.initialize(
            admin,
            min_sources_required,
            max_history_length,
            decimals,
            description,
        ).unwrap();
        assert(m2.config.unwrap().metadata =~= Map::<Seq<char>, Vec<u8>>::empty());
    }
    if m.is_initialized() && !m.is_source(source@) && m.sources().len() < u32::MAX {
        crate::oracle::lemma_add_source_inv(m, source, name);
    }
    if m.is_initialized() && m.is_source(source@) {
        crate::oracle::lemma_remove_source_inv(m, source);
    }
}

/// Removing a source that was just added undoes the addition: the sources,
/// their names and everything else are as before.
pub proof fn law_remove_source_undoes_add(m: OracleModel, source: Address, name: Vec<u8>)
    requires
        m.inv(),
        m.is_initialized(),
        !m.is_source(source@),
        m.sources().len() < u32::MAX,
    ensures
        m.add_source(source, name) is Ok,
        m.add_source(source, name).unwrap().remove_source(source) == Ok::<OracleModel, ErrorCode>(
            m,
        ),
{
    let c = m.config.unwrap();
    let m2 = m.add_source(source, name).unwrap();
    let s2 = c.sources.push(source);
    assert(s2[s2.len() - 1] == source);
    assert(m2.is_source(source@));
    let f = differs_from(source@);
    assert forall|i: int| 0 <= i < c.sources.len() implies f(#[trigger] c.sources[i]) by {
        if c.sources[i]@ == source@ {
            assert(contains_address(c.sources, source@));
        }
    }
    lemma_filter_keeps_all(c.sources, f);
    c.sources.lemma_filter_push(source, f);
    assert(s2.filter(f) == c.sources);
    assert(!c.metadata.contains_key(source@));
    assert(c.metadata.insert(source@, name).remove(source@) =~= c.metadata);
    let m3 = m2.remove_source(source).unwrap();
    assert(m3.config.unwrap() == c);
    assert(m3 == m);
}

/// What `f` gives on each entry that the sources, in order, submitted for
/// `asset`, counted with multiplicity.
pub open spec fn contributed<V>(
    submissions: Map<(Seq<char>, Seq<char>), PriceEntry>,
    asset: Seq<char>,
    sources: Seq<Address>,
    f: spec_fn(PriceEntry) -> V,
) -> Multiset<V> {
    contributions(submissions, asset, sources).map_values(f).to_multiset()
}

/// What `f` gives on the entry that `source` submitted for `asset`, if any.
pub open spec fn contribution_of<V>(
    submissions: Map<(Seq<char>, Seq<char>), PriceEntry>,
    asset: Seq<char>,
    source: Address,
    f: spec_fn(PriceEntry) -> V,
) -> Multiset<V> {
    if submissions.contains_key((asset, source@)) {
        Multiset::singleton(f(submissions[(asset, source@)]))
    } else {
        Multiset::empty()
    }
}

proof fn lemma_contributed_last<V>(
    submissions: Map<(Seq<char>, Seq<char>), PriceEntry>,
    asset: Seq<char>,
    s: Seq<Address>,
    f: spec_fn(PriceEntry) -> V,
)
    requires
        s.len() > 0,
    ensures
        contributed(submissions, asset, s, f) == contributed(submissions, asset, s.drop_last(), f).add(
            contribution_of(submissions, asset, s.last(), f),
        ),
{
    broadcast use vstd::seq_lib::group_to_multiset_ensures;
    broadcast use vstd::multiset::group_multiset_axioms;

    let rest = contributions(submissions, asset, s.drop_last());
    let key = (asset, s.last()@);
    if submissions.contains_key(key) {
        let e = submissions[key];
        assert(rest.push(e).map_values(f) =~= rest.map_values(f).push(f(e)));
        assert(rest.map_values(f).push(f(e)).to_multiset() =~= rest.map_values(f).to_multiset().add(
            Multiset::singleton(f(e)),
        ));
    } else {
        assert(contributed(submissions, asset, s.drop_last(), f).add(Multiset::empty())
            =~= contributed(submissions, asset, s.drop_last(), f));
    }
}

proof fn lemma_contributed_remove<V>(
    submissions: Map<(Seq<char>, Seq<char>), PriceEntry>,
    asset: Seq<char>,
    s: Seq<Address>,
    j: int,
    f: spec_fn(PriceEntry) -> V,
)
    requires
        0 <= j < s.len(),
    ensures
        contributed(submissions, asset, s, f) == contributed(submissions, asset, s.remove(j), f).add(
            contribution_of(submissions, asset, s[j], f),
        ),
    decreases s.len(),
{
    broadcast use vstd::multiset::group_multiset_axioms;

    lemma_contributed_last(submissions, asset, s, f);
    if j == s.len() - 1 {
        assert(s.remove(j) =~= s.drop_last());
    } else {
        let t = s.drop_last();
        let r = s.remove(j);
        assert(r.drop_last() =~= t.remove(j));
        assert(r.last() == s.last());
        assert(t[j] == s[j]);
        lemma_contributed_remove(submissions, asset, t, j, f);
        lemma_contributed_last(submissions, asset, r, f);
        let a = contributed(submissions, asset, t.remove(j), f);
        let x = contribution_of(submissions, asset, s[j], f);
        let y = contribution_of(submissions, asset, s.last(), f);
        assert(a.add(x).add(y) =~= a.add(y).add(x));
    }
}

/// What the sources contributed does not depend on their order.
pub proof fn lemma_contributed_permutation<V>(
    submissions: Map<(Seq<char>, Seq<char>), PriceEntry>,
    asset: Seq<char>,
    s1: Seq<Address>,
    s2: Seq<Address>,
    f: spec_fn(PriceEntry) -> V,
)
    requires
        s1.to_multiset() == s2.to_multiset(),
    ensures
        contributed(submissions, asset, s1, f) == contributed(submissions, asset, s2, f),
    decreases s1.len(),
{
    broadcast use vstd::seq_lib::group_to_multiset_ensures;
    broadcast use vstd::multiset::group_multiset_axioms;

    assert(s1.len() == s1.to_multiset().len() && s2.len() == s2.to_multiset().len());
    if s1.len() == 0 {
        assert(s1 =~= s2);
    } else {
        let x = s1.last();
        assert(s1[s1.len() - 1] == x);
        assert(s1.contains(x));
        assert(s2.to_multiset().count(x) > 0);
        assert(s2.contains(x));
        let j = choose|j: int| 0 <= j < s2.len() && s2[j] == x;
        let t1 = s1.drop_last();
        assert(s1 =~= t1.push(x));
        assert(t1.to_multiset() =~= s1.to_multiset().remove(x)) by {
            assert(t1.push(x).to_multiset() =~= t1.to_multiset().insert(x));
        }
        assert(s2.remove(j).to_multiset() =~= s2.to_multiset().remove(x));
        lemma_contributed_permutation(submissions, asset, t1, s2.remove(j), f);
        lemma_contributed_last(submissions, asset, s1, f);
        lemma_contributed_remove(submissions, asset, s2, j, f);
    }
}

/// The latest timestamp is at least every entry's, and is 0 or one of them.
proof fn lemma_latest_timestamp(e: Seq<PriceEntry>)
    ensures
        forall|i: int| 0 <= i < e.len() ==> (#[trigger] e[i]).timestamp <= latest_timestamp(e),
        latest_timestamp(e) == 0 || exists|i: int|
            0 <= i < e.len() && (#[trigger] e[i]).timestamp == latest_timestamp(e),
    decreases e.len(),
{
    if e.len() > 0 {
        let rest = e.drop_last();
        lemma_latest_timestamp(rest);
        assert forall|i: int| 0 <= i < e.len() implies (#[trigger] e[i]).timestamp
            <= latest_timestamp(e) by {
            if i < rest.len() {
                assert(rest[i] == e[i]);
            }
        }
        if latest_timestamp(e) != 0 && latest_timestamp(e) != e.last().timestamp {
            let i = choose|i: int| 0 <= i < rest.len() && (#[trigger] rest[i]).timestamp
                == latest_timestamp(rest);
            assert(rest[i] == e[i]);
        }
    }
}

/// Entries whose timestamps agree with multiplicity have the same latest
/// timestamp.
proof fn lemma_latest_timestamp_multiset(e1: Seq<PriceEntry>, e2: Seq<PriceEntry>)
    requires
        e1.map_values(|e: PriceEntry| e.timestamp).to_multiset() == e2.map_values(
            |e: PriceEntry| e.timestamp,
        ).to_multiset(),
    ensures
        latest_timestamp(e1) == latest_timestamp(e2),
{
    broadcast use vstd::seq_lib::group_to_multiset_ensures;

    let g = |e: PriceEntry| e.timestamp;
    lemma_latest_timestamp(e1);
    lemma_latest_timestamp(e2);
    let t1 = e1.map_values(g);
    let t2 = e2.map_values(g);
    if latest_timestamp(e2) != 0 {
        let i = choose|i: int| 0 <= i < e2.len() && (#[trigger] e2[i]).timestamp
            == latest_timestamp(e2);
        assert(t2[i] == latest_timestamp(e2));
        assert(t2.contains(latest_timestamp(e2)));
        assert(t1.to_multiset().count(latest_timestamp(e2)) > 0);
        let k = choose|k: int| 0 <= k < t1.len() && t1[k] == latest_timestamp(e2);
        assert(e1[k].timestamp == t1[k]);
    }
    if latest_timestamp(e1) != 0 {
        let i = choose|i: int| 0 <= i < e1.len() && (#[trigger] e1[i]).timestamp
            == latest_timestamp(e1);
        assert(t1[i] == latest_timestamp(e1));
        assert(t1.contains(latest_timestamp(e1)));
        assert(t2.to_multiset().count(latest_timestamp(e1)) > 0);
        let k = choose|k: int| 0 <= k < t2.len() && t2[k] == latest_timestamp(e1);
        assert(e2[k].timestamp == t2[k]);
    }
}

/// When a submission recomputes the aggregate, its price lies between the
/// smallest and the largest of the prices it was computed from; and the
/// aggregate, the history and the stored prices come out the same whatever
/// the order of the sources.
pub proof fn law_aggregate_bounds_and_source_order(
    m: OracleModel,
    reordered: Seq<Address>,
    source: Address,
    asset: Address,
    price: i128,
    timestamp: u64,
    ledger: u32,
)
    requires
        m.inv(),
        m.is_source(source@),
        m.is_registered(asset@),
        price > 0,
        reordered.to_multiset() == m.sources().to_multiset(),
    ensures
        ({
            let m2 = m.with_config(ConfigModel { sources: reordered, ..m.config.unwrap() });
            let r = m.submit_price(source, asset, price, timestamp, ledger);
            let r2 = m2.submit_price(source, asset, price, timestamp, ledger);
            let after = r.unwrap();
            let entries = contributions(after.submissions, asset@, m.sources());
            &&& r is Ok
            &&& r2 is Ok
            &&& entries.len() >= m.min_sources_required() && entries.len() > 0 ==> {
                &&& exists|i: int|
                    0 <= i < entries.len() && (#[trigger] entries[i]).price
                        <= after.aggregates[asset@].price
                &&& exists|i: int|
                    0 <= i < entries.len() && after.aggregates[asset@].price
                        <= (#[trigger] entries[i]).price
            }
            &&& r2.unwrap().aggregates == after.aggregates
            &&& r2.unwrap().history == after.history
            &&& r2.unwrap().submissions == after.submissions
        }),
{
    broadcast use vstd::seq_lib::group_to_multiset_ensures;

    let c = m.config.unwrap();
    let m2 = m.with_config(ConfigModel { sources: reordered, ..c });
    // `source` is a source of the reordered list too.
    let i = choose|i: int| 0 <= i < c.sources.len() && (#[trigger] c.sources[i])@ == source@;
    let x = c.sources[i];
    assert(c.sources.contains(x));
    assert(reordered.to_multiset().count(x) > 0);
    assert(reordered.contains(x));
    let k = choose|k: int| 0 <= k < reordered.len() && reordered[k] == x;
    assert(contains_address(reordered, source@)) by {
        assert(reordered[k]@ == source@);
    }
    assert(m2.is_source(source@));
    let subs = m.submissions_with(source, asset, price, timestamp);
    assert(m2.submissions_with(source, asset, price, timestamp) == subs);
    let e1 = contributions(subs, asset@, c.sources);
    let e2 = contributions(subs, asset@, reordered);
    let pf = |e: PriceEntry| e.price;
    let tf = |e: PriceEntry| e.timestamp;
    lemma_contributed_permutation(subs, asset@, c.sources, reordered, pf);
    lemma_contributed_permutation(subs, asset@, c.sources, reordered, tf);
    assert(prices_of(e1) =~= e1.map_values(pf));
    assert(prices_of(e2) =~= e2.map_values(pf));
    law_median_ignores_order(prices_of(e1), prices_of(e2));
    lemma_latest_timestamp_multiset(e1, e2);
    assert(e1.len() == e1.map_values(pf).to_multiset().len());
    assert(e2.len() == e2.map_values(pf).to_multiset().len());
    if e1.len() > 0 {
        law_median_bounds(prices_of(e1), price);
        let p = prices_of(e1);
        let lo = choose|i: int| 0 <= i < p.len() && p[i] <= median(p);
        let hi = choose|i: int| 0 <= i < p.len() && median(p) <= p[i];
        assert(p[lo] == e1[lo].price && p[hi] == e1[hi].price);
    }
}

/// The deviation depends only on the ratio of the two prices: scaling both
/// positive prices by the same factor, where nothing overflows, leaves it
/// unchanged.
pub proof fn law_deviation_depends_on_ratio(our_price: i128, ref_price: i128, k: int)
    requires
        k > 0,
        our_price > 0,
        ref_price > 0,
        k * our_price <= i128::MAX,
        k * ref_price <= i128::MAX,
        crate::cross_reference::abs(k * our_price - k * ref_price) * 10_000 <= i128::MAX,
    ensures
        deviation_bps((k * our_price) as i128, (k * ref_price) as i128) == deviation_bps(
            our_price,
            ref_price,
        ),
{
    let o = our_price as int;
    let r = ref_price as int;
    let d = crate::cross_reference::abs(o - r);
    let x = d * 10_000;
    assert(k * o - k * r == k * (o - r)) by (nonlinear_arith);
    assert(crate::cross_reference::abs(k * (o - r)) == k * d) by (nonlinear_arith)
        requires
            k > 0,
            d == crate::cross_reference::abs(o - r),
    ;
    assert(k * d * 10_000 == k * x) by (nonlinear_arith)
        requires
            x == d * 10_000,
    ;
    assert(x <= k * x) by (nonlinear_arith)
        requires
            k >= 1,
            x >= 0,
    ;
    assert(k * o > 0 && k * r > 0) by (nonlinear_arith)
        requires
            k > 0,
            o > 0,
            r > 0,
    ;
    vstd::arithmetic::div_mod::lemma_div_denominator(k * x, k, r);
    vstd::arithmetic::div_mod::lemma_div_multiples_vanish(x, k);
    assert((k * x) / (k * r) == x / r);
}

/// `set_admin` hands the admin's authority over: afterwards the new admin,
/// and no longer the old one, must authorize every admin call, and reads as
/// the admin; who authorizes the other calls does not change.
pub proof fn law_set_admin_moves_authority(m: OracleModel, new_admin: Address, other: Call)
    requires
        m.is_initialized(),
    ensures
        m.set_admin(new_admin).authorizer(Call::Administer) == Some(new_admin),
        m.set_admin(new_admin).config.unwrap().admin == new_admin,
        !(other is Administer) ==> m.set_admin(new_admin).authorizer(other) == m.authorizer(other),
{
}

/// The ledgers from `start` to `end` at which `asset` has a recorded
/// aggregate, in ascending order.
spec fn recorded_ledgers(
    history: Map<(Seq<char>, u32), PriceHistoryEntry>,
    asset: Seq<char>,
    start: int,
    end: int,
) -> Seq<u32>
    decreases end - start + 1,
{
    if end < start {
        Seq::empty()
    } else {
        let rest = recorded_ledgers(history, asset, start, end - 1);
        if history.contains_key((asset, end as u32)) {
            rest.push(end as u32)
        } else {
            rest
        }
    }
}

proof fn lemma_history_between(
    history: Map<(Seq<char>, u32), PriceHistoryEntry>,
    asset: Seq<char>,
    start: int,
    end: int,
)
    requires
        0 <= start,
        start - 1 <= end <= u32::MAX,
    ensures
        ({
            let r = crate::oracle::history_between(history, asset, start, end);
            let ls = recorded_ledgers(history, asset, start, end);
            &&& ls.len() == r.len()
            &&& forall|i: int|
                0 <= i < ls.len() ==> start <= #[trigger] ls[i] <= end && history.contains_key(
                    (asset, ls[i]),
                ) && r[i] == history[(asset, ls[i])]
            &&& forall|i: int, j: int| 0 <= i < j < ls.len() ==> #[trigger] ls[i] < #[trigger] ls[j]
            &&& forall|l: u32|
                start <= l <= end && #[trigger] history.contains_key((asset, l)) ==> exists|i: int|
                    0 <= i < ls.len() && ls[i] == l
        }),
    decreases end - start + 1,
{
    if end >= start {
        lemma_history_between(history, asset, start, end - 1);
        let ls0 = recorded_ledgers(history, asset, start, end - 1);
        let ls = recorded_ledgers(history, asset, start, end);
        assert forall|l: u32|
            start <= l <= end && #[trigger] history.contains_key((asset, l)) implies exists|i: int|
            0 <= i < ls.len() && ls[i] == l by {
            if l < end {
                let i = choose|i: int| 0 <= i < ls0.len() && ls0[i] == l;
                assert(ls[i] == ls0[i]);
            } else {
                assert(ls[ls.len() - 1] == end as u32);
            }
        }
    }
}

/// `get_historical_prices` returns, in ascending ledger order, the aggregate
/// recorded at every ledger from `start_ledger` to `end_ledger`, both
/// included, at which one was recorded for the asset, and nothing else.
pub proof fn law_history_range(
    history: Map<(Seq<char>, u32), PriceHistoryEntry>,
    asset: Seq<char>,
    start_ledger: u32,
    end_ledger: u32,
)
    ensures
        ({
            let r = crate::oracle::history_between(
                history,
                asset,
                start_ledger as int,
                end_ledger as int,
            );
            exists|ledgers: Seq<u32>|
                {
                    &&& ledgers.len() == r.len()
                    &&& forall|i: int|
                        0 <= i < ledgers.len() ==> start_ledger <= #[trigger] ledgers[i]
                            <= end_ledger && history.contains_key((asset, ledgers[i])) && r[i]
                            == history[(asset, ledgers[i])]
                    &&& forall|i: int, j: int|
                        0 <= i < j < ledgers.len() ==> #[trigger] ledgers[i] < #[trigger] ledgers[j]
                    &&& forall|l: u32|
                        start_ledger <= l <= end_ledger && #[trigger] history.contains_key(
                            (asset, l),
                        ) ==> exists|i: int| 0 <= i < ledgers.len() && ledgers[i] == l
                }
        }),
{
    if start_ledger <= end_ledger {
        lemma_history_between(history, asset, start_ledger as int, end_ledger as int);
        let ls = recorded_ledgers(history, asset, start_ledger as int, end_ledger as int);
        assert(ls.len() == ls.len());
    } else {
        let r = crate::oracle::history_between(
            history,
            asset,
            start_ledger as int,
            end_ledger as int,
        );
        assert(r.len() == 0);
        let ls = Seq::<u32>::empty();
        assert(ls.len() == r.len());
    }
}

/// A submission by `source` for `asset` changes no stored submission but
/// its own: every other (asset, source) pair is stored after it exactly
/// when it was before, with the same entry.
pub proof fn law_submission_keeps_other_submissions(
    m: OracleModel,
    source: Address,
    asset: Address,
    price: i128,
    timestamp: u64,
    ledger: u32,
)
    ensures
        ({
            let r = m.submit_price(source, asset, price, timestamp, ledger);
            let after = match r {
                Ok(m2) => m2,
                Err(_) => m,
            };
            forall|k: (Seq<char>, Seq<char>)|
                k != (asset@, source@) ==> {
                    &&& (#[trigger] after.submissions.contains_key(k)
                        <==> m.submissions.contains_key(k))
                    &&& m.submissions.contains_key(k) ==> after.submissions[k]
                        == m.submissions[k]
                }
        }),
{
}

/// Unregistering `asset` leaves every other asset's registration and
/// aggregate as they were, and registering one does too.
pub proof fn law_registration_keeps_other_assets(m: OracleModel, asset: Address)
    ensures
        ({
            let after = match m.unregister_asset(asset) {
                Ok(m2) => m2,
                Err(_) => m,
            };
            &&& !after.is_registered(asset@)
            &&& forall|k: Seq<char>|
                k != asset@ ==> {
                    &&& (#[trigger] after.aggregates.contains_key(k)
                        <==> m.aggregates.contains_key(k))
                    &&& m.aggregates.contains_key(k) ==> after.aggregates[k] == m.aggregates[k]
                }
        }),
        ({
            let after = match m.register_asset(asset) {
                Ok(m2) => m2,
                Err(_) => m,
            };
            &&& after.is_registered(asset@)
            &&& forall|k: Seq<char>|
                k != asset@ ==> {
                    &&& (#[trigger] after.aggregates.contains_key(k)
                        <==> m.aggregates.contains_key(k))
                    &&& m.aggregates.contains_key(k) ==> after.aggregates[k] == m.aggregates[k]
                }
        }),
{
}

/// The positions in `s` of the addresses whose view differs from `a`, in
/// order.
spec fn kept_positions(s: Seq<Address>, a: Seq<char>) -> Seq<int>
    decreases s.len(),
{
    if s.len() == 0 {
        Seq::empty()
    } else {
        let rest = kept_positions(s.drop_last(), a);
        if s.last()@ != a {
            rest.push(s.len() - 1)
        } else {
            rest
        }
    }
}

proof fn lemma_kept_positions(s: Seq<Address>, a: Seq<char>)
    ensures
        ({
            let f = s.filter(differs_from(a));
            let p = kept_positions(s, a);
            &&& p.len() == f.len()
            &&& forall|i: int|
                0 <= i < p.len() ==> 0 <= #[trigger] p[i] < s.len() && f[i] == s[p[i]] && s[p[i]]@
                    != a
            &&& forall|i: int, j: int| 0 <= i < j < p.len() ==> #[trigger] p[i] < #[trigger] p[j]
            &&& forall|j: int|
                0 <= j < s.len() && (#[trigger] s[j])@ != a ==> exists|i: int|
                    0 <= i < p.len() && p[i] == j
        }),
    decreases s.len(),
{
    let f = differs_from(a);
    if s.len() == 0 {
        assert(s.filter(f) =~= Seq::<Address>::empty()) by {
            reveal(Seq::filter);
        }
    } else {
        let rest = s.drop_last();
        lemma_kept_positions(rest, a);
        assert(s =~= rest.push(s.last()));
        rest.lemma_filter_push(s.last(), f);
        let p0 = kept_positions(rest, a);
        let p = kept_positions(s, a);
        assert forall|i: int| 0 <= i < p0.len() implies rest[p0[i]] == s[p0[i]] by {}
        assert forall|j: int| 0 <= j < s.len() && (#[trigger] s[j])@ != a implies exists|i: int|
            0 <= i < p.len() && p[i] == j by {
            if j < s.len() - 1 {
                assert(rest[j] == s[j]);
                let i = choose|i: int| 0 <= i < p0.len() && p0[i] == j;
                assert(p[i] == p0[i]);
            } else {
                assert(p[p.len() - 1] == j);
            }
        }
    }
}

/// Removing the reference oracle `contract_id` takes exactly it out of the
/// list: the list after is the list before without the addresses of that
/// contract, in the same order, and every other registered reference
/// oracle keeps its entry.
pub proof fn law_remove_reference_oracle_keeps_others(m: OracleModel, contract_id: Address)
    ensures
        ({
            let after = spec_remove_reference_oracle(m, contract_id);
            let before = m.reference_list;
            &&& forall|b: Seq<char>| b != contract_id@ ==> (#[trigger] contains_address(after.reference_list, b)
                <==> contains_address(before, b))
            &&& !contains_address(after.reference_list, contract_id@)
            &&& exists|positions: Seq<int>|
                #![trigger positions.len()]
                {
                    &&& positions.len() == after.reference_list.len()
                    &&& forall|i: int|
                        0 <= i < positions.len() ==> 0 <= #[trigger] positions[i] < before.len()
                            && after.reference_list[i] == before[positions[i]]
                    &&& forall|i: int, j: int|
                        0 <= i < j < positions.len() ==> #[trigger] positions[i]
                            < #[trigger] positions[j]
                    &&& forall|j: int|
                        0 <= j < before.len() && (#[trigger] before[j])@ != contract_id@
                            ==> exists|i: int| 0 <= i < positions.len() && positions[i] == j
                }
            &&& forall|k: Seq<char>|
                k != contract_id@ ==> {
                    &&& (#[trigger] after.reference_oracles.contains_key(k)
                        <==> m.reference_oracles.contains_key(k))
                    &&& m.reference_oracles.contains_key(k) ==> after.reference_oracles[k]
                        == m.reference_oracles[k]
                }
        }),
{
    let before = m.reference_list;
    let after = spec_remove_reference_oracle(m, contract_id).reference_list;
    lemma_kept_positions(before, contract_id@);
    let p = kept_positions(before, contract_id@);
    assert forall|b: Seq<char>| b != contract_id@ implies (#[trigger] contains_address(after, b)
        <==> contains_address(before, b)) by {
        if contains_address(after, b) {
            let i = choose|i: int| 0 <= i < after.len() && (#[trigger] after[i])@ == b;
            assert(before[p[i]]@ == b);
        }
        if contains_address(before, b) {
            let j = choose|j: int| 0 <= j < before.len() && (#[trigger] before[j])@ == b;
            let i = choose|i: int| 0 <= i < p.len() && p[i] == j;
            assert(after[i]@ == b);
        }
    }
    assert(p.len() == after.len());
    assert(!contains_address(after, contract_id@)) by {
        if contains_address(after, contract_id@) {
            let i = choose|i: int| 0 <= i < after.len() && (#[trigger] after[i])@ == contract_id@;
            assert(before[p[i]]@ != contract_id@);
        }
    }
}

/// Between positive prices whose scaled difference fits an `i128`, the
/// deviation is capped, not wrapped: it is the difference times 10 000
/// divided by the reference price while that fits a `u32`, and the largest
/// `u32` beyond; and for a fixed reference price a larger difference never
/// gives a smaller deviation.
pub proof fn law_deviation_is_capped(our_price: i128, other_price: i128, ref_price: i128)
    requires
        our_price > 0,
        other_price > 0,
        ref_price > 0,
        crate::cross_reference::abs(our_price - ref_price) * 10_000 <= i128::MAX,
    ensures
        ({
            let q = crate::cross_reference::abs(our_price - ref_price) * 10_000 / (ref_price as int);
            &&& q <= u32::MAX ==> deviation_bps(our_price, ref_price) == q
            &&& q > u32::MAX ==> deviation_bps(our_price, ref_price) == u32::MAX
        }),
        crate::cross_reference::abs(our_price - ref_price) <= crate::cross_reference::abs(
            other_price - ref_price,
        ) ==> deviation_bps(our_price, ref_price) <= deviation_bps(other_price, ref_price),
{
    let r = ref_price as int;
    let d1 = crate::cross_reference::abs(our_price - ref_price);
    let d2 = crate::cross_reference::abs(other_price - ref_price);
    if d1 <= d2 {
        let s1 = d1 * 10_000;
        let s2 = d2 * 10_000;
        let n1 = if s1 > i128::MAX { i128::MAX as int } else { s1 };
        let n2 = if s2 > i128::MAX { i128::MAX as int } else { s2 };
        assert(s1 <= s2);
        assert(0 <= n1 <= n2);
        vstd::arithmetic::div_mod::lemma_div_is_ordered(n1, n2, r);
    }
}

} // verus!
