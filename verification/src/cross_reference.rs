use vstd::prelude::*;

use crate::address::Address;
use crate::keyed_map::KeyedMap;
use crate::oracle::{contains_address, differs_from, OracleModel, PriceOracleContract};
use crate::types::{CrossRefDeviationEvent, CrossReferenceResult, ErrorCode, ReferenceOracleEntry};

verus! {

/// The deviation threshold, in basis points, before one is set.
pub const DEFAULT_CROSS_REF_DEVIATION_BPS: u32 = 500;

/// The largest deviation threshold that can be set, in basis points.
pub const MAX_CROSS_REF_DEVIATION_BPS: u32 = 100_000;

/// The deviation threshold in effect.
pub open spec fn threshold_bps(m: OracleModel) -> u32 {
    match m.cross_ref_threshold {
        Some(t) => t,
        None => DEFAULT_CROSS_REF_DEVIATION_BPS,
    }
}

/// The state once `contract_id` is registered as a reference oracle with
/// `asset_mapping`: its entry is replaced, and it is appended to the list
/// unless it is there already.
pub open spec fn spec_add_reference_oracle(
    m: OracleModel,
    contract_id: Address,
    asset_mapping: KeyedMap<Address, Address>,
) -> OracleModel {
    let entry = ReferenceOracleEntry { contract_id, asset_mapping };
    let m1 = OracleModel {
        reference_oracles: m.reference_oracles.insert(contract_id@, entry),
        ..m
    };
    if contains_address(m.reference_list, contract_id@) {
        m1
    } else {
        OracleModel { reference_list: m.reference_list.push(contract_id), ..m1 }
    }
}

/// The state once the reference oracle `contract_id` is removed: its entry
/// is dropped and every occurrence of it leaves the list.
pub open spec fn spec_remove_reference_oracle(m: OracleModel, contract_id: Address) -> OracleModel {
    OracleModel {
        reference_oracles: m.reference_oracles.remove(contract_id@),
        reference_list: m.reference_list.filter(differs_from(contract_id@)),
        ..m
    }
}

/// The state once the threshold is set, or the error when it is above the
/// largest allowed.
pub open spec fn spec_set_cross_ref_deviation_threshold(m: OracleModel, threshold: u32) -> Result<
    OracleModel,
    ErrorCode,
> {
    if threshold > MAX_CROSS_REF_DEVIATION_BPS {
        Err(ErrorCode::InvalidConfiguration)
    } else {
        Ok(OracleModel { cross_ref_threshold: Some(threshold), ..m })
    }
}

/// Registers the oracle contract `contract_id` as a reference, with the
/// asset it uses for each of ours.
pub fn add_reference_oracle(
    oracle: &mut PriceOracleContract,
    contract_id: Address,
    asset_mapping: KeyedMap<Address, Address>,
)
    requires
        old(oracle).wf(),
        old(oracle)@.is_initialized(),
    ensures
        final(oracle).wf(),
        final(oracle)@ == spec_add_reference_oracle(old(oracle)@, contract_id, asset_mapping),
{
    let listed = list_contains(oracle.reference_list(), &contract_id);
    let entry = ReferenceOracleEntry { contract_id: contract_id.duplicate(), asset_mapping };
    oracle.put_reference_oracle(contract_id.duplicate(), entry);
    if !listed {
        let mut list = copy_list(oracle.reference_list());
        list.push(contract_id);
        oracle.replace_reference_list(list);
    }
}

/// Removes the reference oracle `contract_id`.
pub fn remove_reference_oracle(oracle: &mut PriceOracleContract, contract_id: &Address)
    requires
        old(oracle).wf(),
        old(oracle)@.is_initialized(),
    ensures
        final(oracle).wf(),
        final(oracle)@ == spec_remove_reference_oracle(old(oracle)@, *contract_id),
{
    oracle.drop_reference_oracle(contract_id);
    let list = oracle.reference_list();
    let ghost pred = differs_from(contract_id@);
    let n = list.len();
    let mut kept: Vec<Address> = Vec::new();
    let mut i: usize = 0;
    while i < n
        invariant
            n == list@.len(),
            pred == differs_from(contract_id@),
            i <= n,
            kept@ == list@.take(i as int).filter(pred),
        decreases n - i,
    {
        let ghost prefix = list@.take(i as int);
        let ghost item = list@[i as int];
        proof {
            assert(list@.take(i + 1) =~= prefix.push(item));
            prefix.lemma_filter_push(item, pred);
        }
        if !list[i].same(contract_id) {
            kept.push(list[i].duplicate());
        }
        i = i + 1;
    }
    proof {
        assert(list@.take(n as int) =~= list@);
    }
    oracle.replace_reference_list(kept);
}

/// The reference oracles' contracts, in the order they were registered.
pub fn get_reference_oracles(oracle: &PriceOracleContract) -> (l: Vec<Address>)
    ensures
        l@ == oracle@.reference_list,
{
    copy_list(oracle.reference_list())
}

/// Sets the deviation threshold in basis points. Fails with
/// `InvalidConfiguration` above 100 000 basis points.
pub fn set_cross_ref_deviation_threshold(oracle: &mut PriceOracleContract, threshold_bps: u32) -> (r:
    Result<(), ErrorCode>)
    requires
        old(oracle).wf(),
        old(oracle)@.is_initialized(),
    ensures
        final(oracle).wf(),
        crate::oracle::outcome(
            old(oracle)@,
            spec_set_cross_ref_deviation_threshold(old(oracle)@, threshold_bps),
            r,
            final(oracle)@,
        ),
{
    if threshold_bps > MAX_CROSS_REF_DEVIATION_BPS {
        return Err(ErrorCode::InvalidConfiguration);
    }
    oracle.store_cross_ref_threshold(threshold_bps);
    Ok(())
}

/// The deviation threshold in basis points: 500 until one is set.
pub fn get_cross_ref_deviation_threshold(oracle: &PriceOracleContract) -> (t: u32)
    ensures
        t == threshold_bps(oracle@),
{
    match oracle.stored_cross_ref_threshold() {
        Some(t) => t,
        None => DEFAULT_CROSS_REF_DEVIATION_BPS,
    }
}

/// Whether an address with the view of `a` occurs in `list`.
fn list_contains(list: &Vec<Address>, a: &Address) -> (r: bool)
    ensures
        r == contains_address(list@, a@),
{
    let n = list.len();
    let mut i: usize = 0;
    while i < n
        invariant
            n == list@.len(),
            i <= n,
            forall|j: int| 0 <= j < i ==> list@[j]@ != a@,
        decreases n - i,
    {
        if list[i].same(a) {
            proof {
                assert(list@[i as int]@ == a@);
            }
            return true;
        }
        i = i + 1;
    }
    false
}

/// A copy of the list.
fn copy_list(list: &Vec<Address>) -> (r: Vec<Address>)
    ensures
        r@ == list@,
{
    let n = list.len();
    let mut out: Vec<Address> = Vec::new();
    let mut i: usize = 0;
    while i < n
        invariant
            n == list@.len(),
            i <= n,
            out@ == list@.take(i as int),
        decreases n - i,
    {
        out.push(list[i].duplicate());
        proof {
            assert(out@ =~= list@.take(i + 1));
        }
        i = i + 1;
    }
    proof {
        assert(list@.take(n as int) =~= list@);
    }
    out
}

/// The magnitude of `x`.
pub open spec fn abs(x: int) -> int {
    if x < 0 {
        -x
    } else {
        x
    }
}

/// How far `our_price` is from `ref_price`, in basis points of the
/// reference price: the difference times 10 000, saturated at the largest
/// `i128`, divided by the reference price's magnitude, and capped at the
/// largest `u32`; 0 when either price is 0.
pub open spec fn deviation_bps(our_price: i128, ref_price: i128) -> int {
    if ref_price == 0 || our_price == 0 {
        0
    } else {
        let scaled = abs(our_price - ref_price) * 10_000;
        let numerator = if scaled > i128::MAX {
            i128::MAX as int
        } else {
            scaled
        };
        let deviation = numerator / abs(ref_price as int);
        if deviation > u32::MAX {
            u32::MAX as int
        } else {
            deviation
        }
    }
}

/// The deviation of `our_price` from `ref_price` in basis points (see
/// [`deviation_bps`]).
pub fn compute_deviation_bps(our_price: i128, ref_price: i128) -> (d: u32)
    requires
        ref_price != 0 && our_price != 0 ==> {
            &&& abs(our_price - ref_price) <= i128::MAX
            &&& ref_price != i128::MIN
        },
    ensures
        d == deviation_bps(our_price, ref_price),
{
    if ref_price == 0 || our_price == 0 {
        return 0;
    }
    let diff = if our_price > ref_price {
        our_price - ref_price
    } else {
        ref_price - our_price
    };
    let numerator = match diff.checked_mul(10_000) {
        Some(n) => n,
        None => i128::MAX,
    };
    let magnitude = if ref_price < 0 {
        -ref_price
    } else {
        ref_price
    };
    let deviation = numerator / magnitude;
    if deviation > 4_294_967_295i128 {
        u32::MAX
    } else {
        deviation as u32
    }
}

/// A step of comparing our price of an asset with the reference oracles.
pub enum CrossReferenceStep {
    /// Ask the oracle contract `contract_id` for its last price of `asset`,
    /// then resume at `position`.
    Query { position: usize, contract_id: Address, asset: Address },
    /// The comparison is over: its result, if any reference oracle gave a
    /// price, and the event to publish, if the prices are too far apart.
    Done { result: Option<CrossReferenceResult>, event: Option<CrossRefDeviationEvent> },
}

/// The reference oracle at `position` in the list is registered and knows
/// an asset for `asset`.
pub open spec fn is_candidate(m: OracleModel, asset: Seq<char>, position: int) -> bool {
    &&& 0 <= position < m.reference_list.len()
    &&& m.reference_oracles.contains_key(m.reference_list[position]@)
    &&& m.reference_oracles[m.reference_list[position]@].asset_mapping@.contains_key(asset)
}

/// `step` is the step that looking for a reference oracle from `from` on
/// gives: a query to the first candidate there, for the asset it knows in
/// place of ours, or the end without a result when there is none.
pub open spec fn search_step(m: OracleModel, asset: Seq<char>, from: int, step: CrossReferenceStep) -> bool {
    match step {
        CrossReferenceStep::Query { position, contract_id, asset: mapped } => {
            let entry = m.reference_oracles[m.reference_list[position as int]@];
            &&& from <= position
            &&& is_candidate(m, asset, position as int)
            &&& forall|j: int| from <= j < position ==> !is_candidate(m, asset, j)
            &&& contract_id == entry.contract_id
            &&& mapped == entry.asset_mapping@[asset]
        },
        CrossReferenceStep::Done { result, event } => {
            &&& result is None
            &&& event is None
            &&& forall|j: int| from <= j ==> !is_candidate(m, asset, j)
        },
    }
}

/// `step` is the end of the comparison once the reference oracle at
/// `position` gave the positive price `ref_price`: the result sets our
/// price beside it, and the event is there when the deviation is above the
/// threshold.
pub open spec fn answered_step(
    m: OracleModel,
    asset: Address,
    position: int,
    ref_price: i128,
    step: CrossReferenceStep,
) -> bool {
    let our_price = m.aggregates[asset@].price;
    let ref_contract = m.reference_oracles[m.reference_list[position]@].contract_id;
    let deviation = deviation_bps(our_price, ref_price);
    match step {
        CrossReferenceStep::Done { result: Some(result), event } => {
            &&& result == CrossReferenceResult {
                our_price,
                ref_price,
                deviation_bps: deviation as u32,
                ref_contract,
            }
            &&& if deviation > threshold_bps(m) {
                event == Some(
                    CrossRefDeviationEvent {
                        asset,
                        ref_contract,
                        our_price,
                        ref_price,
                        deviation_bps: deviation as u32,
                        threshold_bps: threshold_bps(m),
                    },
                )
            } else {
                event is None
            }
        },
        _ => false,
    }
}

/// Looks for the first candidate reference oracle at or after `from`.
fn search_from(oracle: &PriceOracleContract, asset: &Address, from: usize) -> (step: CrossReferenceStep)
    ensures
        search_step(oracle@, asset@, from as int, step),
{
    let list = oracle.reference_list();
    let n = list.len();
    let mut i: usize = from;
    while i < n
        invariant
            n == list@.len(),
            list@ == oracle@.reference_list,
            from <= i,
            forall|j: int| from <= j < i ==> !is_candidate(oracle@, asset@, j),
        decreases n - i,
    {
        match oracle.reference_oracle(&list[i]) {
            Some(entry) => {
                match entry.asset_mapping.get(asset) {
                    Some(mapped) => {
                        return CrossReferenceStep::Query {
                            position: i,
                            contract_id: entry.contract_id.duplicate(),
                            asset: mapped.duplicate(),
                        };
                    },
                    None => {},
                }
            },
            None => {},
        }
        i = i + 1;
    }
    CrossReferenceStep::Done { result: None, event: None }
}

/// Starts comparing our price of `asset` with the reference oracles. The
/// comparison ends at once, without a result, when the asset has no
/// aggregate; otherwise it asks the first registered reference oracle that
/// knows an asset for ours.
pub fn get_cross_reference(oracle: &PriceOracleContract, asset: &Address) -> (step:
    CrossReferenceStep)
    ensures
        if oracle@.aggregates.contains_key(asset@) {
            search_step(oracle@, asset@, 0, step)
        } else {
            step == (CrossReferenceStep::Done { result: None, event: None })
        },
{
    if oracle.get_price(asset).is_err() {
        return CrossReferenceStep::Done { result: None, event: None };
    }
    search_from(oracle, asset, 0)
}

/// Goes on comparing once the reference oracle at `position` answered
/// `ref_price`. A positive price ends the comparison with its result; any
/// other price passes on to the next reference oracle that knows an asset
/// for ours.
pub fn resume_cross_reference(
    oracle: &PriceOracleContract,
    asset: &Address,
    position: usize,
    ref_price: i128,
) -> (step: CrossReferenceStep)
    requires
        oracle.wf(),
        oracle@.aggregates.contains_key(asset@),
        is_candidate(oracle@, asset@, position as int),
    ensures
        if ref_price > 0 {
            answered_step(oracle@, *asset, position as int, ref_price, step)
        } else {
            search_step(oracle@, asset@, position + 1, step)
        },
{
    let list = oracle.reference_list();
    if ref_price <= 0 {
        let n = list.len();
        proof {
            assert(position < n);
        }
        return search_from(oracle, asset, position + 1);
    }
    let our_price = match oracle.get_price(asset) {
        Ok(aggregate) => aggregate.price,
        Err(_) => 0,
    };
    let ref_contract = match oracle.reference_oracle(&list[position]) {
        Some(entry) => entry.contract_id.duplicate(),
        None => list[position].duplicate(),
    };
    let deviation_bps = compute_deviation_bps(our_price, ref_price);
    let threshold_bps = get_cross_ref_deviation_threshold(oracle);
    let event = if deviation_bps > threshold_bps {
        Some(
            CrossRefDeviationEvent {
                asset: asset.duplicate(),
                ref_contract: ref_contract.duplicate(),
                our_price,
                ref_price,
                deviation_bps,
                threshold_bps,
            },
        )
    } else {
        None
    };
    CrossReferenceStep::Done {
        result: Some(CrossReferenceResult { our_price, ref_price, deviation_bps, ref_contract }),
        event,
    }
}

} // verus!
