use vstd::prelude::*;
use vstd::string::StringSliceAdditionalSpecFns;

use crate::address::Address;
use crate::keyed_map::KeyedMap;
use crate::median::{compute_median, lemma_median_of_positive, median, median_fits, median_is_computable};
use crate::types::{
    AggregatePrice, ErrorCode, OracleSources, PriceEntry, PriceHistoryEntry, ReferenceOracleEntry,
};

verus! {

/// The history length reported before the oracle is initialized, and the one
/// it keeps when initialized with 0.
pub const DEFAULT_MAX_HISTORY: u32 = 100;

/// The number of sources reported before the oracle is initialized, and the
/// one it requires when initialized with 0.
pub const DEFAULT_MIN_SOURCES: u32 = 1;

/// The decimals reported before the oracle is initialized.
pub const DEFAULT_DECIMALS: u32 = 18;

/// The description reported before the oracle is initialized: the UTF-8
/// bytes of "Stellar Price Oracle".
pub open spec fn default_description() -> Seq<u8> {
    "Stellar Price Oracle".spec_bytes()
}

/// What the oracle holds once it is initialized.
pub struct ConfigModel {
    pub admin: Address,
    pub min_sources_required: u32,
    pub max_history_length: u32,
    pub decimals: u32,
    pub description: Vec<u8>,
    /// The sources, in the order they were added.
    pub sources: Seq<Address>,
    /// The name of each source.
    pub metadata: Map<Seq<char>, Vec<u8>>,
}

/// Everything the oracle holds. Addresses in keys are taken by their view.
pub struct OracleModel {
    /// `None` until the oracle is initialized.
    pub config: Option<ConfigModel>,
    /// The registered assets, each with its aggregated price.
    pub aggregates: Map<Seq<char>, AggregatePrice>,
    /// The last price that each source submitted for each asset, keyed by
    /// asset, then source.
    pub submissions: Map<(Seq<char>, Seq<char>), PriceEntry>,
    /// The aggregates recorded for each asset at each ledger.
    pub history: Map<(Seq<char>, u32), PriceHistoryEntry>,
    /// The reference oracles, keyed by their contract.
    pub reference_oracles: Map<Seq<char>, ReferenceOracleEntry>,
    /// The reference oracles' contracts, in the order they were registered.
    pub reference_list: Seq<Address>,
    /// The deviation threshold in basis points, if one was set.
    pub cross_ref_threshold: Option<u32>,
}

/// Whether an address with the view `a` occurs in `s`.
pub open spec fn contains_address(s: Seq<Address>, a: Seq<char>) -> bool {
    exists|i: int| 0 <= i < s.len() && (#[trigger] s[i])@ == a
}

/// Whether an address's view differs from `a`.
pub open spec fn differs_from(a: Seq<char>) -> spec_fn(Address) -> bool {
    |x: Address| x@ != a
}

/// The entries that the sources, taken in order, submitted for `asset`;
/// sources that submitted nothing for it are skipped.
pub open spec fn contributions(
    submissions: Map<(Seq<char>, Seq<char>), PriceEntry>,
    asset: Seq<char>,
    sources: Seq<Address>,
) -> Seq<PriceEntry>
    decreases sources.len(),
{
    if sources.len() == 0 {
        Seq::empty()
    } else {
        let rest = contributions(submissions, asset, sources.drop_last());
        let key = (asset, sources.last()@);
        if submissions.contains_key(key) {
            rest.push(submissions[key])
        } else {
            rest
        }
    }
}

/// The prices of the entries, in order.
pub open spec fn prices_of(entries: Seq<PriceEntry>) -> Seq<i128> {
    entries.map_values(|e: PriceEntry| e.price)
}

/// The latest timestamp among the entries, or 0 when there are none.
pub open spec fn latest_timestamp(entries: Seq<PriceEntry>) -> u64
    decreases entries.len(),
{
    if entries.len() == 0 {
        0
    } else {
        let rest = latest_timestamp(entries.drop_last());
        if entries.last().timestamp > rest {
            entries.last().timestamp
        } else {
            rest
        }
    }
}

/// The aggregates recorded for `asset` at the ledgers from `start` to `end`,
/// in ledger order.
pub open spec fn history_between(
    history: Map<(Seq<char>, u32), PriceHistoryEntry>,
    asset: Seq<char>,
    start: int,
    end: int,
) -> Seq<PriceHistoryEntry>
    decreases end - start + 1,
{
    if end < start {
        Seq::empty()
    } else {
        let rest = history_between(history, asset, start, end - 1);
        let key = (asset, end as u32);
        if history.contains_key(key) {
            rest.push(history[key])
        } else {
            rest
        }
    }
}

/// The state after `next`, or the state unchanged with the error.
pub open spec fn outcome(
    before: OracleModel,
    next: Result<OracleModel, ErrorCode>,
    r: Result<(), ErrorCode>,
    after: OracleModel,
) -> bool {
    match next {
        Ok(m) => r == Ok::<(), ErrorCode>(()) && after == m,
        Err(e) => r == Err::<(), ErrorCode>(e) && after == before,
    }
}

/// No address occurs twice in `s`.
pub open spec fn addresses_distinct(s: Seq<Address>) -> bool {
    forall|i: int, j: int| 0 <= i < j < s.len() ==> (#[trigger] s[i])@ != (#[trigger] s[j])@
}

/// Filtering out the addresses with the view `a` keeps the others in order
/// and no duplicates.
pub proof fn lemma_filter_out(s: Seq<Address>, a: Seq<char>)
    requires
        addresses_distinct(s),
    ensures
        addresses_distinct(s.filter(differs_from(a))),
        !contains_address(s.filter(differs_from(a)), a),
        forall|b: Seq<char>|
            b != a ==> (contains_address(s.filter(differs_from(a)), b) <==> contains_address(s, b)),
    decreases s.len(),
{
    let f = differs_from(a);
    if s.len() == 0 {
        assert(s.filter(f) =~= Seq::<Address>::empty()) by {
            reveal(Seq::filter);
        }
    } else {
        let rest = s.drop_last();
        let last = s.last();
        assert(addresses_distinct(rest)) by {
            assert forall|i: int, j: int| 0 <= i < j < rest.len() implies (#[trigger] rest[i])@
                != (#[trigger] rest[j])@ by {
                assert(rest[i] == s[i] && rest[j] == s[j]);
            }
        }
        lemma_filter_out(rest, a);
        assert(s =~= rest.push(last));
        rest.lemma_filter_push(last, f);
        let fr = rest.filter(f);
        assert forall|e: Address| fr.contains(e) implies e@ != last@ by {
            rest.lemma_filter_contains_rev(f, e);
            let j = choose|j: int| 0 <= j < rest.len() && rest[j] == e;
            assert(s[j] == e);
        }
        if f(last) {
            assert(s.filter(f) == fr.push(last));
            assert forall|i: int, j: int| 0 <= i < j < fr.push(last).len() implies (#[trigger] fr.push(
                last,
            )[i])@ != (#[trigger] fr.push(last)[j])@ by {
                if j == fr.len() {
                    assert(fr.contains(fr[i]));
                }
            }
            assert forall|b: Seq<char>| b != a implies (contains_address(fr.push(last), b)
                <==> contains_address(s, b)) by {
                if contains_address(s, b) {
                    let i = choose|i: int| 0 <= i < s.len() && (#[trigger] s[i])@ == b;
                    if i < rest.len() {
                        assert(rest[i] == s[i]);
                        assert(contains_address(rest, b));
                        assert(contains_address(fr, b));
                        let k = choose|k: int| 0 <= k < fr.len() && (#[trigger] fr[k])@ == b;
                        assert(fr.push(last)[k] == fr[k]);
                    } else {
                        assert(fr.push(last)[fr.len() as int] == last);
                    }
                }
                if contains_address(fr.push(last), b) {
                    let k = choose|k: int| 0 <= k < fr.push(last).len() && (#[trigger] fr.push(
                        last,
                    )[k])@ == b;
                    if k < fr.len() {
                        assert(fr.push(last)[k] == fr[k]);
                        assert(contains_address(rest, b));
                        let i = choose|i: int| 0 <= i < rest.len() && (#[trigger] rest[i])@ == b;
                        assert(s[i] == rest[i]);
                    } else {
                        assert(s[s.len() - 1] == last);
                    }
                }
            }
            assert(!contains_address(fr.push(last), a)) by {
                if contains_address(fr.push(last), a) {
                    let k = choose|k: int| 0 <= k < fr.push(last).len() && (#[trigger] fr.push(
                        last,
                    )[k])@ == a;
                    if k < fr.len() {
                        assert(fr.push(last)[k] == fr[k]);
                    }
                }
            }
        } else {
            assert(s.filter(f) == fr);
            assert forall|b: Seq<char>| b != a implies (contains_address(fr, b) <==> contains_address(
                s,
                b,
            )) by {
                if contains_address(s, b) {
                    let i = choose|i: int| 0 <= i < s.len() && (#[trigger] s[i])@ == b;
                    if i < rest.len() {
                        assert(rest[i] == s[i]);
                    }
                }
                if contains_address(rest, b) {
                    let i = choose|i: int| 0 <= i < rest.len() && (#[trigger] rest[i])@ == b;
                    assert(s[i] == rest[i]);
                }
            }
        }
    }
}

/// Adding a source that is not one keeps the oracle's invariant.
pub proof fn lemma_add_source_inv(m: OracleModel, source: Address, name: Vec<u8>)
    requires
        m.inv(),
        m.is_initialized(),
        !m.is_source(source@),
        m.sources().len() < u32::MAX,
    ensures
        m.add_source(source, name) is Ok,
        m.add_source(source, name).unwrap().inv(),
{
    let c = m.config.unwrap();
    let s2 = c.sources.push(source);
    let md2 = c.metadata.insert(source@, name);
    assert(s2[s2.len() - 1] == source);
    assert forall|i: int, j: int| 0 <= i < j < s2.len() implies (#[trigger] s2[i])@
        != (#[trigger] s2[j])@ by {
        if j == s2.len() - 1 {
            assert(s2[i] == c.sources[i]);
        } else {
            assert(s2[i] == c.sources[i] && s2[j] == c.sources[j]);
        }
    }
    assert forall|k: Seq<char>| #[trigger] md2.contains_key(k) <==> contains_address(s2, k) by {
        if contains_address(c.sources, k) {
            let i = choose|i: int| 0 <= i < c.sources.len() && (#[trigger] c.sources[i])@ == k;
            assert(s2[i] == c.sources[i]);
        }
        if contains_address(s2, k) && k != source@ {
            let i = choose|i: int| 0 <= i < s2.len() && (#[trigger] s2[i])@ == k;
            assert(s2[i] == c.sources[i]);
        }
    }
}

/// Removing a source keeps the oracle's invariant.
pub proof fn lemma_remove_source_inv(m: OracleModel, source: Address)
    requires
        m.inv(),
        m.is_initialized(),
        m.is_source(source@),
    ensures
        m.remove_source(source) is Ok,
        m.remove_source(source).unwrap().inv(),
{
    let c = m.config.unwrap();
    lemma_filter_out(c.sources, source@);
    let s2 = c.sources.filter(differs_from(source@));
    assert(s2.len() <= c.sources.len()) by {
        broadcast use vstd::seq_lib::group_filter_ensures;
    }
    let md2 = c.metadata.remove(source@);
    assert forall|k: Seq<char>| #[trigger] md2.contains_key(k) <==> contains_address(s2, k) by {
        if k != source@ {
            assert(c.metadata.contains_key(k) <==> contains_address(c.sources, k));
        }
    }
}

impl OracleModel {
    /// What every reachable state keeps: nothing is registered before the
    /// oracle is initialized; the source list fits a `u32` count, holds no
    /// address twice, and the names are keyed by exactly the sources;
    /// submitted prices are positive and aggregated prices are not negative.
    pub open spec fn inv(self) -> bool {
        &&& self.config is None ==> self.aggregates.dom() == Set::<Seq<char>>::empty()
        &&& self.config is Some ==> self.config.unwrap().sources.len() <= u32::MAX
        &&& self.config is Some ==> addresses_distinct(self.config.unwrap().sources)
        &&& self.config is Some ==> forall|k: Seq<char>|
            #[trigger] self.config.unwrap().metadata.contains_key(k) <==> contains_address(
                self.config.unwrap().sources,
                k,
            )
        &&& forall|k: Seq<char>| #[trigger]
            self.aggregates.contains_key(k) ==> self.aggregates[k].price >= 0
        &&& forall|k: (Seq<char>, Seq<char>)| #[trigger]
            self.submissions.contains_key(k) ==> self.submissions[k].price > 0
    }

    pub open spec fn is_initialized(self) -> bool {
        self.config is Some
    }

    pub open spec fn min_sources_required(self) -> u32 {
        match self.config {
            Some(c) => c.min_sources_required,
            None => DEFAULT_MIN_SOURCES,
        }
    }

    pub open spec fn max_history_length(self) -> u32 {
        match self.config {
            Some(c) => c.max_history_length,
            None => DEFAULT_MAX_HISTORY,
        }
    }

    pub open spec fn decimals(self) -> u32 {
        match self.config {
            Some(c) => c.decimals,
            None => DEFAULT_DECIMALS,
        }
    }

    pub open spec fn description(self) -> Seq<u8> {
        match self.config {
            Some(c) => c.description@,
            None => default_description(),
        }
    }

    /// The sources in the order they were added; none before initialization.
    pub open spec fn sources(self) -> Seq<Address> {
        match self.config {
            Some(c) => c.sources,
            None => Seq::empty(),
        }
    }

    pub open spec fn is_source(self, source: Seq<char>) -> bool {
        contains_address(self.sources(), source)
    }

    pub open spec fn is_registered(self, asset: Seq<char>) -> bool {
        self.aggregates.contains_key(asset)
    }

    /// The state with `c` as its configuration.
    pub open spec fn with_config(self, c: ConfigModel) -> OracleModel {
        OracleModel { config: Some(c), ..self }
    }

    pub open spec fn initialize(
        self,
        admin: Address,
        min_sources_required: u32,
        max_history_length: u32,
        decimals: u32,
        description: Vec<u8>,
    ) -> Result<OracleModel, ErrorCode> {
        if self.is_initialized() {
            Err(ErrorCode::AlreadyInitialized)
        } else {
            Ok(
                self.with_config(
                    ConfigModel {
                        admin,
                        min_sources_required: if min_sources_required > 0 {
                            min_sources_required
                        } else {
                            DEFAULT_MIN_SOURCES
                        },
                        max_history_length: if max_history_length > 0 {
                            max_history_length
                        } else {
                            DEFAULT_MAX_HISTORY
                        },
                        decimals,
                        description,
                        sources: Seq::empty(),
                        metadata: Map::empty(),
                    },
                ),
            )
        }
    }

    pub open spec fn set_admin(self, new_admin: Address) -> OracleModel {
        self.with_config(ConfigModel { admin: new_admin, ..self.config.unwrap() })
    }

    pub open spec fn set_min_sources_required(self, new_min: u32) -> OracleModel {
        self.with_config(ConfigModel { min_sources_required: new_min, ..self.config.unwrap() })
    }

    pub open spec fn set_max_history_length(self, new_max: u32) -> OracleModel {
        self.with_config(ConfigModel { max_history_length: new_max, ..self.config.unwrap() })
    }

    pub open spec fn set_decimals(self, new_decimals: u32) -> OracleModel {
        self.with_config(ConfigModel { decimals: new_decimals, ..self.config.unwrap() })
    }

    pub open spec fn set_description(self, new_description: Vec<u8>) -> OracleModel {
        self.with_config(ConfigModel { description: new_description, ..self.config.unwrap() })
    }

    pub open spec fn register_asset(self, asset: Address) -> Result<OracleModel, ErrorCode> {
        if self.is_registered(asset@) {
            Err(ErrorCode::AssetAlreadyRegistered)
        } else {
            Ok(
                OracleModel {
                    aggregates: self.aggregates.insert(
                        asset@,
                        AggregatePrice {
                            price: 0,
                            timestamp: 0,
                            num_sources: 0,
                            decimals: self.decimals(),
                        },
                    ),
                    ..self
                },
            )
        }
    }

    pub open spec fn unregister_asset(self, asset: Address) -> Result<OracleModel, ErrorCode> {
        if !self.is_registered(asset@) {
            Err(ErrorCode::AssetNotRegistered)
        } else {
            Ok(OracleModel { aggregates: self.aggregates.remove(asset@), ..self })
        }
    }

    pub open spec fn add_source(self, source: Address, name: Vec<u8>) -> Result<
        OracleModel,
        ErrorCode,
    > {
        if self.is_source(source@) {
            Err(ErrorCode::SourceAlreadyExists)
        } else {
            let c = self.config.unwrap();
            Ok(
                self.with_config(
                    ConfigModel {
                        sources: c.sources.push(source),
                        metadata: c.metadata.insert(source@, name),
                        ..c
                    },
                ),
            )
        }
    }

    pub open spec fn remove_source(self, source: Address) -> Result<OracleModel, ErrorCode> {
        if !self.is_source(source@) {
            Err(ErrorCode::SourceNotFound)
        } else {
            let c = self.config.unwrap();
            Ok(
                self.with_config(
                    ConfigModel {
                        sources: c.sources.filter(differs_from(source@)),
                        metadata: c.metadata.remove(source@),
                        ..c
                    },
                ),
            )
        }
    }

    /// The entry that a submission stores.
    pub open spec fn submission_entry(
        self,
        source: Address,
        price: i128,
        timestamp: u64,
    ) -> PriceEntry {
        PriceEntry { price, timestamp, source, decimals: self.decimals() }
    }

    /// The submissions once `source` has submitted `price` for `asset`.
    pub open spec fn submissions_with(
        self,
        source: Address,
        asset: Address,
        price: i128,
        timestamp: u64,
    ) -> Map<(Seq<char>, Seq<char>), PriceEntry> {
        self.submissions.insert((asset@, source@), self.submission_entry(source, price, timestamp))
    }

    /// The state once a valid submission is stored and, if enough sources
    /// have submitted, aggregated: the aggregate is the median of the
    /// sources' prices with the latest of their timestamps, and it is
    /// recorded in the history at `ledger` when its price or timestamp
    /// changed.
    pub open spec fn record_submission(
        self,
        source: Address,
        asset: Address,
        price: i128,
        timestamp: u64,
        ledger: u32,
    ) -> OracleModel {
        let subs = self.submissions_with(source, asset, price, timestamp);
        let m1 = OracleModel { submissions: subs, ..self };
        let entries = contributions(subs, asset@, self.sources());
        let count = entries.len();
        if count >= self.min_sources_required() && count > 0 {
            let med = median(prices_of(entries)) as i128;
            let latest = latest_timestamp(entries);
            let prev = self.aggregates[asset@];
            let aggregate = AggregatePrice {
                price: med,
                timestamp: latest,
                num_sources: count as u32,
                decimals: self.decimals(),
            };
            let m2 = OracleModel { aggregates: m1.aggregates.insert(asset@, aggregate), ..m1 };
            if prev.price != med || prev.timestamp != latest {
                OracleModel {
                    history: m2.history.insert(
                        (asset@, ledger),
                        PriceHistoryEntry {
                            price: med,
                            timestamp: latest,
                            ledger,
                            num_sources: count as u32,
                        },
                    ),
                    ..m2
                }
            } else {
                m2
            }
        } else {
            m1
        }
    }

    pub open spec fn submit_price(
        self,
        source: Address,
        asset: Address,
        price: i128,
        timestamp: u64,
        ledger: u32,
    ) -> Result<OracleModel, ErrorCode> {
        if !self.is_source(source@) {
            Err(ErrorCode::NotAuthorized)
        } else if !self.is_registered(asset@) {
            Err(ErrorCode::AssetNotRegistered)
        } else if price <= 0 {
            Err(ErrorCode::InvalidPrice)
        } else {
            Ok(self.record_submission(source, asset, price, timestamp, ledger))
        }
    }

    /// A submission that passes the checks and leads to a new aggregate can
    /// be aggregated in `i128`.
    pub open spec fn submission_fits(
        self,
        source: Address,
        asset: Address,
        price: i128,
        timestamp: u64,
    ) -> bool {
        let entries = contributions(
            self.submissions_with(source, asset, price, timestamp),
            asset@,
            self.sources(),
        );
        self.is_source(source@) && self.is_registered(asset@) && price > 0 && entries.len()
            >= self.min_sources_required() && entries.len() > 0 ==> median_fits(prices_of(entries))
    }
}

/// A call of the oracle that an address must authorize.
pub enum Call {
    /// Initializing the oracle: the admin being installed authorizes it.
    Initialize { admin: Address },
    /// A call that only the admin may make: upgrading the contract,
    /// `set_admin`, the setters of the settings and of the deviation
    /// threshold, registering and unregistering assets, and adding and
    /// removing sources and reference oracles.
    Administer,
    /// Submitting a price: the submitting source authorizes it.
    SubmitPrice { source: Address },
}

impl OracleModel {
    /// The address that must authorize `call`: `None` for an admin call on
    /// an oracle that has no admin yet, which fails for that reason.
    pub open spec fn authorizer(self, call: Call) -> Option<Address> {
        match call {
            Call::Initialize { admin } => Some(admin),
            Call::Administer => match self.config {
                Some(c) => Some(c.admin),
                None => None,
            },
            Call::SubmitPrice { source } => Some(source),
        }
    }
}

/// The configuration of an initialized oracle.
pub struct OracleConfig {
    pub admin: Address,
    pub min_sources_required: u32,
    pub max_history_length: u32,
    pub decimals: u32,
    pub description: Vec<u8>,
    pub sources: OracleSources,
}

/// What a configuration stands for.
pub open spec fn config_model(config: Option<OracleConfig>) -> Option<ConfigModel> {
    match config {
        Some(c) => Some(
            ConfigModel {
                admin: c.admin,
                min_sources_required: c.min_sources_required,
                max_history_length: c.max_history_length,
                decimals: c.decimals,
                description: c.description,
                sources: c.sources.sources@,
                metadata: c.sources.metadata@,
            },
        ),
        None => None,
    }
}

/// A price oracle: its state, and the operations that read and change it.
pub struct PriceOracleContract {
    config: Option<OracleConfig>,
    aggregates: KeyedMap<Address, AggregatePrice>,
    submissions: KeyedMap<(Address, Address), PriceEntry>,
    history: KeyedMap<(Address, u32), PriceHistoryEntry>,
    reference_oracles: KeyedMap<Address, ReferenceOracleEntry>,
    reference_list: Vec<Address>,
    cross_ref_threshold: Option<u32>,
}

impl View for PriceOracleContract {
    type V = OracleModel;

    closed spec fn view(&self) -> OracleModel {
        OracleModel {
            config: config_model(self.config),
            aggregates: self.aggregates@,
            submissions: self.submissions@,
            history: self.history@,
            reference_oracles: self.reference_oracles@,
            reference_list: self.reference_list@,
            cross_ref_threshold: self.cross_ref_threshold,
        }
    }
}

impl PriceOracleContract {
    /// The state is one that the oracle's operations can reach.
    pub open spec fn wf(&self) -> bool {
        self@.inv()
    }

    /// A freshly deployed oracle: nothing is stored.
    pub fn new() -> (o: Self)
        ensures
            o.wf(),
            o@.config is None,
            o@.aggregates == Map::<Seq<char>, AggregatePrice>::empty(),
            o@.submissions == Map::<(Seq<char>, Seq<char>), PriceEntry>::empty(),
            o@.history == Map::<(Seq<char>, u32), PriceHistoryEntry>::empty(),
            o@.reference_oracles == Map::<Seq<char>, ReferenceOracleEntry>::empty(),
            o@.reference_list == Seq::<Address>::empty(),
            o@.cross_ref_threshold is None,
    {
        let o = PriceOracleContract {
            config: None,
            aggregates: KeyedMap::new(),
            submissions: KeyedMap::new(),
            history: KeyedMap::new(),
            reference_oracles: KeyedMap::new(),
            reference_list: Vec::new(),
            cross_ref_threshold: None,
        };
        proof {
            assert(o@.aggregates.dom() =~= Set::<Seq<char>>::empty());
        }
        o
    }

    /// The address that must authorize `call` (see [`OracleModel::authorizer`]).
    pub fn authorizer(&self, call: &Call) -> (a: Option<Address>)
        ensures
            a == self@.authorizer(*call),
    {
        match call {
            Call::Initialize { admin } => Some(admin.duplicate()),
            Call::Administer => match &self.config {
                Some(c) => Some(c.admin.duplicate()),
                None => None,
            },
            Call::SubmitPrice { source } => Some(source.duplicate()),
        }
    }

    /// Whether the oracle has been initialized.
    pub fn is_initialized(&self) -> (r: bool)
        ensures
            r == self@.is_initialized(),
    {
        self.config.is_some()
    }

    /// Initializes the oracle with its admin and settings; a minimum of 0
    /// sources or a history length of 0 stands for the default. Fails with
    /// `AlreadyInitialized` on an initialized oracle.
    pub fn initialize(
        &mut self,
        admin: Address,
        min_sources_required: u32,
        max_history_length: u32,
        decimals: u32,
        description: Vec<u8>,
    ) -> (r: Result<(), ErrorCode>)
        requires
            old(self).wf(),
        ensures
            final(self).wf(),
            outcome(
                old(self)@,
                old(self)@.initialize(
                    admin,
                    min_sources_required,
                    max_history_length,
                    decimals,
                    description,
                ),
                r,
                final(self)@,
            ),
    {
        if self.config.is_some() {
            return Err(ErrorCode::AlreadyInitialized);
        }
        let sources = OracleSources { sources: Vec::new(), metadata: KeyedMap::new() };
        self.config = Some(
            OracleConfig {
                admin,
                min_sources_required: if min_sources_required > 0 {
                    min_sources_required
                } else {
                    DEFAULT_MIN_SOURCES
                },
                max_history_length: if max_history_length > 0 {
                    max_history_length
                } else {
                    DEFAULT_MAX_HISTORY
                },
                decimals,
                description,
                sources,
            },
        );
        Ok(())
    }

    /// The admin of an initialized oracle.
    pub fn get_admin_address(&self) -> (a: &Address)
        requires
            self@.is_initialized(),
        ensures
            *a == self@.config.unwrap().admin,
    {
        &self.config.as_ref().unwrap().admin
    }

    /// Makes `new_admin` the admin.
    pub fn set_admin(&mut self, new_admin: Address)
        requires
            old(self).wf(),
            old(self)@.is_initialized(),
        ensures
            final(self).wf(),
            final(self)@ == old(self)@.set_admin(new_admin),
    {
        match &mut self.config {
            Some(c) => {
                c.admin = new_admin;
            },
            None => {},
        }
    }

    pub fn set_min_sources_required(&mut self, new_min: u32)
        requires
            old(self).wf(),
            old(self)@.is_initialized(),
        ensures
            final(self).wf(),
            final(self)@ == old(self)@.set_min_sources_required(new_min),
    {
        match &mut self.config {
            Some(c) => {
                c.min_sources_required = new_min;
            },
            None => {},
        }
    }

    pub fn get_min_sources_required(&self) -> (n: u32)
        ensures
            n == self@.min_sources_required(),
    {
        match &self.config {
            Some(c) => c.min_sources_required,
            None => DEFAULT_MIN_SOURCES,
        }
    }

    pub fn set_max_history_length(&mut self, new_max: u32)
        requires
            old(self).wf(),
            old(self)@.is_initialized(),
        ensures
            final(self).wf(),
            final(self)@ == old(self)@.set_max_history_length(new_max),
    {
        match &mut self.config {
            Some(c) => {
                c.max_history_length = new_max;
            },
            None => {},
        }
    }

    pub fn get_max_history_length(&self) -> (n: u32)
        ensures
            n == self@.max_history_length(),
    {
        match &self.config {
            Some(c) => c.max_history_length,
            None => DEFAULT_MAX_HISTORY,
        }
    }

    pub fn set_decimals(&mut self, new_decimals: u32)
        requires
            old(self).wf(),
            old(self)@.is_initialized(),
        ensures
            final(self).wf(),
            final(self)@ == old(self)@.set_decimals(new_decimals),
    {
        match &mut self.config {
            Some(c) => {
                c.decimals = new_decimals;
            },
            None => {},
        }
    }

    pub fn get_decimals(&self) -> (n: u32)
        ensures
            n == self@.decimals(),
    {
        match &self.config {
            Some(c) => c.decimals,
            None => DEFAULT_DECIMALS,
        }
    }

    pub fn set_description(&mut self, new_description: Vec<u8>)
        requires
            old(self).wf(),
            old(self)@.is_initialized(),
        ensures
            final(self).wf(),
            final(self)@ == old(self)@.set_description(new_description),
    {
        match &mut self.config {
            Some(c) => {
                c.description = new_description;
            },
            None => {},
        }
    }

    pub fn get_description(&self) -> (d: Vec<u8>)
        ensures
            d@ == self@.description(),
    {
        match &self.config {
            Some(c) => vstd::slice::slice_to_vec(c.description.as_slice()),
            None => vstd::slice::slice_to_vec("Stellar Price Oracle".as_bytes()),
        }
    }

    /// Registers `asset` with an empty aggregate. Fails with
    /// `AssetAlreadyRegistered` when it is registered already.
    pub fn register_asset(&mut self, asset: Address) -> (r: Result<(), ErrorCode>)
        requires
            old(self).wf(),
            old(self)@.is_initialized(),
        ensures
            final(self).wf(),
            outcome(old(self)@, old(self)@.register_asset(asset), r, final(self)@),
    {
        if self.aggregates.contains_key(&asset) {
            return Err(ErrorCode::AssetAlreadyRegistered);
        }
        let decimals = self.get_decimals();
        self.aggregates.insert(asset, AggregatePrice { price: 0, timestamp: 0, num_sources: 0, decimals });
        Ok(())
    }

    /// Unregisters `asset` and drops its aggregate. Fails with
    /// `AssetNotRegistered` when it is not registered.
    pub fn unregister_asset(&mut self, asset: &Address) -> (r: Result<(), ErrorCode>)
        requires
            old(self).wf(),
            old(self)@.is_initialized(),
        ensures
            final(self).wf(),
            outcome(old(self)@, old(self)@.unregister_asset(*asset), r, final(self)@),
    {
        if let Err(e) = self.check_registered_asset(asset) {
            return Err(e);
        }
        self.aggregates.remove(asset);
        Ok(())
    }

    pub fn is_asset_registered(&self, asset: &Address) -> (r: bool)
        ensures
            r == self@.is_registered(asset@),
    {
        self.aggregates.contains_key(asset)
    }

    pub fn is_source(&self, source: &Address) -> (r: bool)
        ensures
            r == self@.is_source(source@),
    {
        match &self.config {
            Some(c) => {
                let list = &c.sources.sources;
                let n = list.len();
                let mut i: usize = 0;
                while i < n
                    invariant
                        n == list@.len(),
                        list@ == self@.sources(),
                        i <= n,
                        forall|j: int| 0 <= j < i ==> list@[j]@ != source@,
                    decreases n - i,
                {
                    if list[i].same(source) {
                        proof {
                            assert(self@.sources()[i as int]@ == source@);
                        }
                        return true;
                    }
                    i = i + 1;
                }
                false
            },
            None => false,
        }
    }

    /// Fails with `NotAuthorized` unless `source` is a source.
    fn check_source(&self, source: &Address) -> (r: Result<(), ErrorCode>)
        ensures
            r == if self@.is_source(source@) {
                Ok::<(), ErrorCode>(())
            } else {
                Err::<(), ErrorCode>(ErrorCode::NotAuthorized)
            },
    {
        if !self.is_source(source) {
            return Err(ErrorCode::NotAuthorized);
        }
        Ok(())
    }

    /// Fails with `AssetNotRegistered` unless `asset` is registered.
    fn check_registered_asset(&self, asset: &Address) -> (r: Result<(), ErrorCode>)
        ensures
            r == if self@.is_registered(asset@) {
                Ok::<(), ErrorCode>(())
            } else {
                Err::<(), ErrorCode>(ErrorCode::AssetNotRegistered)
            },
    {
        if !self.aggregates.contains_key(asset) {
            return Err(ErrorCode::AssetNotRegistered);
        }
        Ok(())
    }

    /// Adds `source`, with its name, at the end of the sources. Fails with
    /// `SourceAlreadyExists` when it is a source already.
    pub fn add_source(&mut self, source: Address, name: Vec<u8>) -> (r: Result<(), ErrorCode>)
        requires
            old(self).wf(),
            old(self)@.is_initialized(),
            !old(self)@.is_source(source@) ==> old(self)@.sources().len() < u32::MAX,
        ensures
            final(self).wf(),
            outcome(old(self)@, old(self)@.add_source(source, name), r, final(self)@),
    {
        if self.is_source(&source) {
            return Err(ErrorCode::SourceAlreadyExists);
        }
        proof {
            lemma_add_source_inv(self@, source, name);
        }
        match &mut self.config {
            Some(c) => {
                c.sources.metadata.insert(source.duplicate(), name);
                c.sources.sources.push(source);
            },
            None => {},
        }
        Ok(())
    }

    /// Removes every occurrence of `source` from the sources, with its name.
    /// Fails with `SourceNotFound` when it is not a source.
    pub fn remove_source(&mut self, source: &Address) -> (r: Result<(), ErrorCode>)
        requires
            old(self).wf(),
            old(self)@.is_initialized(),
        ensures
            final(self).wf(),
            outcome(old(self)@, old(self)@.remove_source(*source), r, final(self)@),
    {
        if !self.is_source(source) {
            return Err(ErrorCode::SourceNotFound);
        }
        proof {
            lemma_remove_source_inv(self@, *source);
        }
        match &mut self.config {
            Some(c) => {
                let ghost pred = differs_from(source@);
                let n = c.sources.sources.len();
                let mut kept: Vec<Address> = Vec::new();
                let mut i: usize = 0;
                while i < n
                    invariant
                        n == c.sources.sources@.len(),
                        pred == differs_from(source@),
                        i <= n,
                        kept@ == c.sources.sources@.take(i as int).filter(pred),
                    decreases n - i,
                {
                    proof {
                        assert(c.sources.sources@.take(i + 1) =~= c.sources.sources@.take(
                            i as int,
                        ).push(c.sources.sources@[i as int]));
                    }
                    let ghost prefix = c.sources.sources@.take(i as int);
                    let ghost item = c.sources.sources@[i as int];
                    if !c.sources.sources[i].same(source) {
                        kept.push(c.sources.sources[i].duplicate());
                        proof {
                            assert(pred(item));
                            prefix.lemma_filter_push(item, pred);
                            assert(prefix.push(item).filter(pred) == prefix.filter(pred).push(item));
                        }
                    } else {
                        proof {
                            assert(!pred(item));
                            prefix.lemma_filter_push(item, pred);
                            assert(prefix.push(item).filter(pred) == prefix.filter(pred));
                        }
                    }
                    i = i + 1;
                }
                proof {
                    assert(c.sources.sources@.take(n as int) =~= c.sources.sources@);
                }
                c.sources.sources = kept;
                c.sources.metadata.remove(source);
            },
            None => {},
        }
        Ok(())
    }

    /// The sources and their names.
    pub fn get_oracle_sources(&self) -> (s: &OracleSources)
        requires
            self@.is_initialized(),
        ensures
            s.sources@ == self@.config.unwrap().sources,
            s.metadata@ == self@.config.unwrap().metadata,
    {
        &self.config.as_ref().unwrap().sources
    }

    /// The prices, the latest timestamp and the number of the entries that
    /// aggregation takes for `asset` once `source` has submitted `price`.
    fn gather(&self, source: &Address, asset: &Address, price: i128, timestamp: u64) -> (r: (
        Vec<i128>,
        u64,
        u32,
    ))
        requires
            self.wf(),
        ensures
            ({
                let entries = contributions(
                    self@.submissions_with(*source, *asset, price, timestamp),
                    asset@,
                    self@.sources(),
                );
                &&& r.0@ == prices_of(entries)
                &&& r.1 == latest_timestamp(entries)
                &&& r.2 == entries.len()
            }),
    {
        let empty: Vec<Address> = Vec::new();
        let list: &Vec<Address> = match &self.config {
            Some(c) => &c.sources.sources,
            None => &empty,
        };
        let ghost subs = self@.submissions_with(*source, *asset, price, timestamp);
        let n = list.len();
        let mut prices: Vec<i128> = Vec::new();
        let mut latest: u64 = 0;
        let mut count: u32 = 0;
        let mut i: usize = 0;
        while i < n
            invariant
                n == list@.len(),
                list@ == self@.sources(),
                n <= u32::MAX,
                i <= n,
                subs == self@.submissions_with(*source, *asset, price, timestamp),
                prices@ == prices_of(contributions(subs, asset@, list@.take(i as int))),
                latest == latest_timestamp(contributions(subs, asset@, list@.take(i as int))),
                count == contributions(subs, asset@, list@.take(i as int)).len(),
                count <= i,
            decreases n - i,
        {
            let ghost before = contributions(subs, asset@, list@.take(i as int));
            proof {
                assert(list@.take(i + 1).drop_last() =~= list@.take(i as int));
            }
            let s = &list[i];
            let found: Option<(i128, u64)> = if s.same(source) {
                Some((price, timestamp))
            } else {
                match self.submissions.get(&(asset.duplicate(), s.duplicate())) {
                    Some(e) => Some((e.price, e.timestamp)),
                    None => None,
                }
            };
            match found {
                Some((p, t)) => {
                    let ghost e = subs[(asset@, s@)];
                    proof {
                        assert(contributions(subs, asset@, list@.take(i + 1)) == before.push(e));
                        assert(before.push(e).drop_last() =~= before);
                        assert(prices_of(before.push(e)) =~= prices_of(before).push(p));
                    }
                    prices.push(p);
                    if t > latest {
                        latest = t;
                    }
                    count = count + 1;
                },
                None => {
                    proof {
                        assert(contributions(subs, asset@, list@.take(i + 1)) == before);
                    }
                },
            }
            i = i + 1;
        }
        proof {
            assert(list@.take(n as int) =~= list@);
        }
        (prices, latest, count)
    }

    /// Whether a submission of `price` by `source` for `asset` that passes
    /// the checks can be aggregated in `i128`: the condition under which
    /// `submit_price` may be called.
    pub fn submission_fits(&self, source: &Address, asset: &Address, price: i128, timestamp: u64) -> (r: bool)
        requires
            self.wf(),
        ensures
            r == self@.submission_fits(*source, *asset, price, timestamp),
    {
        if !(self.is_source(source) && self.aggregates.contains_key(asset) && price > 0) {
            return true;
        }
        let (prices, _, count) = self.gather(source, asset, price, timestamp);
        if count >= self.get_min_sources_required() && count > 0 {
            median_is_computable(&prices)
        } else {
            true
        }
    }

    /// Stores the price that `source` submitted for `asset`; then, if at
    /// least the required number of sources have submitted for the asset,
    /// sets its aggregate to the median of their prices with the latest of
    /// their timestamps, and records it in the history at `current_ledger`
    /// when it changed. Fails with `NotAuthorized` when `source` is not a
    /// source, `AssetNotRegistered` when the asset is not registered, and
    /// `InvalidPrice` when the price is not positive, checked in that order.
    pub fn submit_price(
        &mut self,
        source: Address,
        asset: Address,
        price: i128,
        timestamp: u64,
        current_ledger: u32,
    ) -> (r: Result<(), ErrorCode>)
        requires
            old(self).wf(),
            old(self)@.submission_fits(source, asset, price, timestamp),
        ensures
            final(self).wf(),
            outcome(
                old(self)@,
                old(self)@.submit_price(source, asset, price, timestamp, current_ledger),
                r,
                final(self)@,
            ),
    {
        if let Err(e) = self.check_source(&source) {
            return Err(e);
        }
        if let Err(e) = self.check_registered_asset(&asset) {
            return Err(e);
        }
        if price <= 0 {
            return Err(ErrorCode::InvalidPrice);
        }
        let ghost before = self@;
        let decimals = self.get_decimals();
        let (prices, latest, count) = self.gather(&source, &asset, price, timestamp);
        let min_required = self.get_min_sources_required();
        let prev = match self.aggregates.get(&asset) {
            Some(a) => *a,
            None => AggregatePrice { price: 0, timestamp: 0, num_sources: 0, decimals: 0 },
        };
        let ghost subs = before.submissions_with(source, asset, price, timestamp);
        let ghost entries = contributions(subs, asset@, before.sources());
        proof {
            lemma_contributions_positive(subs, asset@, before.sources());
            assert(forall|i: int| 0 <= i < prices@.len() ==> prices@[i] == entries[i].price);
        }
        let entry = PriceEntry { price, timestamp, source: source.duplicate(), decimals };
        self.submissions.insert((asset.duplicate(), source), entry);
        if count >= min_required && prices.len() > 0 {
            let median_price = compute_median(&prices);
            proof {
                lemma_median_of_positive(prices@);
            }
            self.aggregates.insert(
                asset.duplicate(),
                AggregatePrice { price: median_price, timestamp: latest, num_sources: count, decimals },
            );
            if prev.price != median_price || prev.timestamp != latest {
                self.history.insert(
                    (asset, current_ledger),
                    PriceHistoryEntry {
                        price: median_price,
                        timestamp: latest,
                        ledger: current_ledger,
                        num_sources: count,
                    },
                );
            }
        }
        Ok(())
    }

    /// The aggregate of `asset`. Fails with `AssetNotRegistered` when it is
    /// not registered.
    pub fn get_price(&self, asset: &Address) -> (r: Result<AggregatePrice, ErrorCode>)
        ensures
            r == if self@.is_registered(asset@) {
                Ok::<AggregatePrice, ErrorCode>(self@.aggregates[asset@])
            } else {
                Err::<AggregatePrice, ErrorCode>(ErrorCode::AssetNotRegistered)
            },
    {
        match self.aggregates.get(asset) {
            Some(a) => Ok(*a),
            None => Err(ErrorCode::AssetNotRegistered),
        }
    }

    /// Whether `source` has a stored submission for `asset`.
    pub fn has_source_price(&self, asset: &Address, source: &Address) -> (r: bool)
        ensures
            r == self@.submissions.contains_key((asset@, source@)),
    {
        self.submissions.contains_key(&(asset.duplicate(), source.duplicate()))
    }

    /// The last price that `source` submitted for `asset`. Fails with
    /// `AssetNotRegistered` when the asset is not registered, then with
    /// `NotAuthorized` when `source` is not a source.
    pub fn get_source_price(&self, asset: &Address, source: &Address) -> (r: Result<
        PriceEntry,
        ErrorCode,
    >)
        requires
            self@.is_registered(asset@) && self@.is_source(source@)
                ==> self@.submissions.contains_key((asset@, source@)),
        ensures
            r == if !self@.is_registered(asset@) {
                Err::<PriceEntry, ErrorCode>(ErrorCode::AssetNotRegistered)
            } else if !self@.is_source(source@) {
                Err::<PriceEntry, ErrorCode>(ErrorCode::NotAuthorized)
            } else {
                Ok::<PriceEntry, ErrorCode>(self@.submissions[(asset@, source@)])
            },
    {
        if let Err(e) = self.check_registered_asset(asset) {
            return Err(e);
        }
        if let Err(e) = self.check_source(source) {
            return Err(e);
        }
        Ok(self.submissions.get(&(asset.duplicate(), source.duplicate())).unwrap().clone())
    }

    /// The last price that each source, in order, submitted for `asset`;
    /// sources that submitted nothing for it are skipped. Fails with
    /// `AssetNotRegistered` when the asset is not registered.
    pub fn get_all_prices(&self, asset: &Address) -> (r: Result<Vec<PriceEntry>, ErrorCode>)
        requires
            self.wf(),
        ensures
            match r {
                Ok(v) => self@.is_registered(asset@) && v@ == contributions(
                    self@.submissions,
                    asset@,
                    self@.sources(),
                ),
                Err(e) => !self@.is_registered(asset@) && e == ErrorCode::AssetNotRegistered,
            },
    {
        if let Err(e) = self.check_registered_asset(asset) {
            return Err(e);
        }
        let list: &Vec<Address> = &self.config.as_ref().unwrap().sources.sources;
        let ghost subs = self@.submissions;
        let n = list.len();
        let mut entries: Vec<PriceEntry> = Vec::new();
        let mut i: usize = 0;
        while i < n
            invariant
                n == list@.len(),
                list@ == self@.sources(),
                i <= n,
                subs == self@.submissions,
                entries@ == contributions(subs, asset@, list@.take(i as int)),
            decreases n - i,
        {
            proof {
                assert(list@.take(i + 1).drop_last() =~= list@.take(i as int));
            }
            match self.submissions.get(&(asset.duplicate(), list[i].duplicate())) {
                Some(e) => {
                    entries.push(e.clone());
                },
                None => {},
            }
            i = i + 1;
        }
        proof {
            assert(list@.take(n as int) =~= list@);
        }
        Ok(entries)
    }

    /// The aggregate recorded for `asset` at `ledger`. Fails with
    /// `AssetNotRegistered` when the asset is not registered.
    pub fn get_historical_price(&self, asset: &Address, ledger: u32) -> (r: Result<
        PriceHistoryEntry,
        ErrorCode,
    >)
        requires
            self@.is_registered(asset@) ==> self@.history.contains_key((asset@, ledger)),
        ensures
            r == if self@.is_registered(asset@) {
                Ok::<PriceHistoryEntry, ErrorCode>(self@.history[(asset@, ledger)])
            } else {
                Err::<PriceHistoryEntry, ErrorCode>(ErrorCode::AssetNotRegistered)
            },
    {
        if let Err(e) = self.check_registered_asset(asset) {
            return Err(e);
        }
        Ok(*self.history.get(&(asset.duplicate(), ledger)).unwrap())
    }

    /// Whether `asset` is registered and has an aggregate recorded at `ledger`.
    pub fn has_historical_price(&self, asset: &Address, ledger: u32) -> (r: bool)
        ensures
            r == (self@.is_registered(asset@) && self@.history.contains_key((asset@, ledger))),
    {
        if !self.aggregates.contains_key(asset) {
            return false;
        }
        self.history.contains_key(&(asset.duplicate(), ledger))
    }

    /// The aggregates recorded for `asset` at the ledgers from `start_ledger`
    /// to `end_ledger`, both included, in ledger order. Fails with
    /// `AssetNotRegistered` when the asset is not registered.
    pub fn get_historical_prices(&self, asset: &Address, start_ledger: u32, end_ledger: u32) -> (r:
        Result<Vec<PriceHistoryEntry>, ErrorCode>)
        requires
            start_ledger <= end_ledger ==> end_ledger < u32::MAX,
        ensures
            match r {
                Ok(v) => self@.is_registered(asset@) && v@ == history_between(
                    self@.history,
                    asset@,
                    start_ledger as int,
                    end_ledger as int,
                ),
                Err(e) => !self@.is_registered(asset@) && e == ErrorCode::AssetNotRegistered,
            },
    {
        if let Err(e) = self.check_registered_asset(asset) {
            return Err(e);
        }
        let ghost h = self@.history;
        let mut entries: Vec<PriceHistoryEntry> = Vec::new();
        let mut ledger = start_ledger;
        if start_ledger > end_ledger {
            return Ok(entries);
        }
        while ledger <= end_ledger
            invariant
                start_ledger <= ledger <= end_ledger + 1,
                end_ledger < u32::MAX,
                h == self@.history,
                entries@ == history_between(h, asset@, start_ledger as int, ledger - 1),
            decreases end_ledger + 1 - ledger,
        {
            let key = (asset.duplicate(), ledger);
            if self.history.contains_key(&key) {
                entries.push(*self.history.get(&key).unwrap());
            }
            ledger = ledger + 1;
        }
        Ok(entries)
    }
}

impl PriceOracleContract {
    /// The reference oracle registered under `contract_id`, if any.
    pub(crate) fn reference_oracle(&self, contract_id: &Address) -> (r: Option<&ReferenceOracleEntry>)
        ensures
            match r {
                Some(e) => self@.reference_oracles.contains_key(contract_id@) && *e
                    == self@.reference_oracles[contract_id@],
                None => !self@.reference_oracles.contains_key(contract_id@),
            },
    {
        self.reference_oracles.get(contract_id)
    }

    /// Stores `entry` as the reference oracle of `contract_id`.
    pub(crate) fn put_reference_oracle(&mut self, contract_id: Address, entry: ReferenceOracleEntry)
        requires
            old(self).wf(),
        ensures
            final(self).wf(),
            final(self)@ == (OracleModel {
                reference_oracles: old(self)@.reference_oracles.insert(contract_id@, entry),
                ..old(self)@
            }),
    {
        self.reference_oracles.insert(contract_id, entry);
    }

    /// Drops the reference oracle of `contract_id`.
    pub(crate) fn drop_reference_oracle(&mut self, contract_id: &Address)
        requires
            old(self).wf(),
        ensures
            final(self).wf(),
            final(self)@ == (OracleModel {
                reference_oracles: old(self)@.reference_oracles.remove(contract_id@),
                ..old(self)@
            }),
    {
        self.reference_oracles.remove(contract_id);
    }

    /// The reference oracles' contracts, in order.
    pub fn reference_list(&self) -> (l: &Vec<Address>)
        ensures
            l@ == self@.reference_list,
    {
        &self.reference_list
    }

    /// Replaces the list of reference oracles' contracts.
    pub(crate) fn replace_reference_list(&mut self, list: Vec<Address>)
        requires
            old(self).wf(),
        ensures
            final(self).wf(),
            final(self)@ == (OracleModel { reference_list: list@, ..old(self)@ }),
    {
        self.reference_list = list;
    }

    /// The deviation threshold, if one was set.
    pub fn stored_cross_ref_threshold(&self) -> (t: Option<u32>)
        ensures
            t == self@.cross_ref_threshold,
    {
        self.cross_ref_threshold
    }

    /// Sets the deviation threshold.
    pub(crate) fn store_cross_ref_threshold(&mut self, threshold_bps: u32)
        requires
            old(self).wf(),
        ensures
            final(self).wf(),
            final(self)@ == (OracleModel { cross_ref_threshold: Some(threshold_bps), ..old(self)@ }),
    {
        self.cross_ref_threshold = Some(threshold_bps);
    }
}

impl PriceOracleContract {
    /// The configuration, once the oracle is initialized.
    pub fn config(&self) -> (c: &Option<OracleConfig>)
        ensures
            config_model(*c) == self@.config,
    {
        &self.config
    }

    /// The registered assets and their aggregates.
    pub fn aggregates(&self) -> (m: &KeyedMap<Address, AggregatePrice>)
        ensures
            m@ == self@.aggregates,
    {
        &self.aggregates
    }

    /// The stored submissions, keyed by asset, then source.
    pub fn submissions(&self) -> (m: &KeyedMap<(Address, Address), PriceEntry>)
        ensures
            m@ == self@.submissions,
    {
        &self.submissions
    }

    /// The recorded aggregates, keyed by asset, then ledger.
    pub fn history(&self) -> (m: &KeyedMap<(Address, u32), PriceHistoryEntry>)
        ensures
            m@ == self@.history,
    {
        &self.history
    }

    /// The reference oracles, keyed by their contract.
    pub fn reference_oracles(&self) -> (m: &KeyedMap<Address, ReferenceOracleEntry>)
        ensures
            m@ == self@.reference_oracles,
    {
        &self.reference_oracles
    }

    /// An oracle holding the given parts, if they make a state that the
    /// oracle's operations can reach (see [`OracleModel::inv`]); `None`
    /// otherwise.
    pub fn from_parts(
        config: Option<OracleConfig>,
        aggregates: KeyedMap<Address, AggregatePrice>,
        submissions: KeyedMap<(Address, Address), PriceEntry>,
        history: KeyedMap<(Address, u32), PriceHistoryEntry>,
        reference_oracles: KeyedMap<Address, ReferenceOracleEntry>,
        reference_list: Vec<Address>,
        cross_ref_threshold: Option<u32>,
    ) -> (r: Option<Self>)
        ensures
            ({
                let m = OracleModel {
                    config: config_model(config),
                    aggregates: aggregates@,
                    submissions: submissions@,
                    history: history@,
                    reference_oracles: reference_oracles@,
                    reference_list: reference_list@,
                    cross_ref_threshold,
                };
                match r {
                    Some(o) => o.wf() && o@ == m,
                    None => !m.inv(),
                }
            }),
    {
        let aggregate_pairs = aggregates.pairs();
        let n = aggregate_pairs.len();
        let mut i: usize = 0;
        while i < n
            invariant
                n == aggregate_pairs@.len(),
                forall|j: int|
                    #![trigger aggregate_pairs@[j]]
                    0 <= j < n ==> aggregates@.contains_key(aggregate_pairs@[j].0@)
                        && aggregates@[aggregate_pairs@[j].0@] == aggregate_pairs@[j].1,
                i <= n,
                forall|j: int| 0 <= j < i ==> aggregate_pairs@[j].1.price >= 0,
            decreases n - i,
        {
            if aggregate_pairs[i].1.price < 0 {
                proof {
                    let p = aggregate_pairs@[i as int];
                    assert(aggregates@.contains_key(p.0@));
                    assert(aggregates@[p.0@].price < 0);
                }
                return None;
            }
            i = i + 1;
        }
        proof {
            assert forall|k: Seq<char>| #[trigger] aggregates@.contains_key(k) implies aggregates@[
                k
            ].price >= 0 by {
                let j = choose|j: int| 0 <= j < aggregate_pairs@.len() && (#[trigger] aggregate_pairs@[
                j]).0@ == k;
                assert(aggregates@[aggregate_pairs@[j].0@] == aggregate_pairs@[j].1);
            }
        }
        let submission_pairs = submissions.pairs();
        let n = submission_pairs.len();
        let mut i: usize = 0;
        while i < n
            invariant
                n == submission_pairs@.len(),
                forall|j: int|
                    #![trigger submission_pairs@[j]]
                    0 <= j < n ==> submissions@.contains_key(submission_pairs@[j].0@)
                        && submissions@[submission_pairs@[j].0@] == submission_pairs@[j].1,
                i <= n,
                forall|j: int| 0 <= j < i ==> submission_pairs@[j].1.price > 0,
            decreases n - i,
        {
            if submission_pairs[i].1.price <= 0 {
                proof {
                    let p = submission_pairs@[i as int];
                    assert(submissions@.contains_key(p.0@));
                    assert(submissions@[p.0@].price <= 0);
                    let m = OracleModel {
                        config: config_model(config),
                        aggregates: aggregates@,
                        submissions: submissions@,
                        history: history@,
                        reference_oracles: reference_oracles@,
                        reference_list: reference_list@,
                        cross_ref_threshold,
                    };
                    assert(m.submissions.contains_key(p.0@));
                    assert(!m.inv());
                }
                return None;
            }
            i = i + 1;
        }
        proof {
            assert forall|k: (Seq<char>, Seq<char>)| #[trigger] submissions@.contains_key(k) implies submissions@[
                k
            ].price > 0 by {
                let j = choose|j: int| 0 <= j < submission_pairs@.len() && (#[trigger] submission_pairs@[
                j]).0@ == k;
                assert(submissions@[submission_pairs@[j].0@] == submission_pairs@[j].1);
            }
        }
        match &config {
            Some(c) => {
                if c.sources.sources.len() > 4_294_967_295usize {
                    return None;
                }
                if !sources_consistent(&c.sources) {
                    proof {
                        let m = OracleModel {
                            config: config_model(config),
                            aggregates: aggregates@,
                            submissions: submissions@,
                            history: history@,
                            reference_oracles: reference_oracles@,
                            reference_list: reference_list@,
                            cross_ref_threshold,
                        };
                        let cm = m.config.unwrap();
                        assert(cm.sources == c.sources.sources@);
                        assert(cm.metadata == c.sources.metadata@);
                        if addresses_distinct(cm.sources) {
                            let k = choose|k: Seq<char>|
                                !(#[trigger] cm.metadata.contains_key(k) <==> contains_address(
                                    cm.sources,
                                    k,
                                ));
                            assert(cm.metadata.contains_key(k) != contains_address(cm.sources, k));
                        }
                        assert(!m.inv());
                    }
                    return None;
                }
            },
            None => {
                if aggregate_pairs.len() > 0 {
                    proof {
                        assert(aggregates@.contains_key(aggregate_pairs@[0].0@));
                        assert(!(aggregates@.dom() == Set::<Seq<char>>::empty()));
                    }
                    return None;
                }
                proof {
                    assert(aggregates@.dom() =~= Set::<Seq<char>>::empty());
                }
            },
        }
        Some(
            PriceOracleContract {
                config,
                aggregates,
                submissions,
                history,
                reference_oracles,
                reference_list,
                cross_ref_threshold,
            },
        )
    }
}

/// Whether an address with the view of `a` occurs in `list`.
fn address_in(list: &Vec<Address>, a: &Address) -> (r: bool)
    ensures
        r == contains_address(list@, a@),
{
    let n = list.len();
    let mut i: usize = 0;
    while i < n
        invariant
            n == list@.len(),
            i <= n,
            forall|j: int| 0 <= j < i ==> list@[j]@ != a@,
        decreases n - i,
    {
        if list[i].same(a) {
            proof {
                assert(list@[i as int]@ == a@);
            }
            return true;
        }
        i = i + 1;
    }
    false
}

/// Whether no source occurs twice and the names are keyed by exactly the
/// sources.
fn sources_consistent(s: &OracleSources) -> (r: bool)
    ensures
        r == (addresses_distinct(s.sources@) && forall|k: Seq<char>|
            #[trigger] s.metadata@.contains_key(k) <==> contains_address(s.sources@, k)),
{
    let list = &s.sources;
    let n = list.len();
    let mut i: usize = 0;
    while i < n
        invariant
            n == list@.len(),
            list@ == s.sources@,
            i <= n,
            forall|a: int, b: int| 0 <= a < b < n && a < i ==> (#[trigger] list@[a])@ != (
            #[trigger] list@[b])@,
        decreases n - i,
    {
        let mut j: usize = i + 1;
        while j < n
            invariant
                n == list@.len(),
                list@ == s.sources@,
                i < n,
                i + 1 <= j <= n,
                forall|a: int, b: int| 0 <= a < b < n && a < i ==> (#[trigger] list@[a])@ != (
                #[trigger] list@[b])@,
                forall|b: int| i < b < j ==> list@[i as int]@ != (#[trigger] list@[b])@,
            decreases n - j,
        {
            if list[i].same(&list[j]) {
                proof {
                    assert(!addresses_distinct(list@)) by {
                        assert(list@[i as int]@ == list@[j as int]@);
                    }
                }
                return false;
            }
            j = j + 1;
        }
        i = i + 1;
    }
    let mut i: usize = 0;
    while i < n
        invariant
            n == list@.len(),
            list@ == s.sources@,
            i <= n,
            forall|j: int| 0 <= j < i ==> s.metadata@.contains_key((#[trigger] list@[j])@),
        decreases n - i,
    {
        if !s.metadata.contains_key(&list[i]) {
            proof {
                assert(contains_address(list@, list@[i as int]@));
            }
            return false;
        }
        i = i + 1;
    }
    let pairs = s.metadata.pairs();
    let m = pairs.len();
    let mut i: usize = 0;
    while i < m
        invariant
            m == pairs@.len(),
            list@ == s.sources@,
            i <= m,
            forall|j: int| 0 <= j < i ==> contains_address(list@, (#[trigger] pairs@[j]).0@),
            forall|k: Seq<char>|
                #[trigger] s.metadata@.contains_key(k) <==> exists|j: int|
                    0 <= j < pairs@.len() && (#[trigger] pairs@[j]).0@ == k,
        decreases m - i,
    {
        if !address_in(list, &pairs[i].0) {
            proof {
                assert(s.metadata@.contains_key(pairs@[i as int].0@));
            }
            return false;
        }
        i = i + 1;
    }
    proof {
        assert forall|k: Seq<char>| #[trigger] s.metadata@.contains_key(k) <==> contains_address(
            list@,
            k,
        ) by {
            if contains_address(list@, k) {
                let j = choose|j: int| 0 <= j < list@.len() && (#[trigger] list@[j])@ == k;
                assert(s.metadata@.contains_key(list@[j]@));
            }
            if s.metadata@.contains_key(k) {
                let j = choose|j: int| 0 <= j < pairs@.len() && (#[trigger] pairs@[j]).0@ == k;
                assert(contains_address(list@, pairs@[j].0@));
            }
        }
    }
    true
}

/// The entries that the sources submitted are among the submissions, so
/// their prices are positive when all submitted prices are.
pub proof fn lemma_contributions_positive(
    submissions: Map<(Seq<char>, Seq<char>), PriceEntry>,
    asset: Seq<char>,
    sources: Seq<Address>,
)
    requires
        forall|k: (Seq<char>, Seq<char>)| #[trigger]
            submissions.contains_key(k) ==> submissions[k].price > 0,
    ensures
        forall|i: int|
            0 <= i < contributions(submissions, asset, sources).len() ==> (#[trigger] contributions(
                submissions,
                asset,
                sources,
            )[i]).price > 0,
        contributions(submissions, asset, sources).len() <= sources.len(),
    decreases sources.len(),
{
    if sources.len() > 0 {
        lemma_contributions_positive(submissions, asset, sources.drop_last());
    }
}

} // verus!
