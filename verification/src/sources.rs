//! Explicit composition of installed history source adapters.
//!
//! Registration never calls an adapter. The caller chooses connector instances
//! first; only those adapters receive acquisition calls.
use crate::json::JsonValue;
use crate::source_evidence::ObservationKey;
use crate::store;
use crate::store::{SessionEvent, SessionLocation, SessionScope, SourceNames};
use crate::text;
use crate::text::same_text;
use vstd::prelude::*;
use vstd::string::*;

verus! {

/// A connector instance that a caller selected.
#[derive(Debug, PartialEq, Eq, PartialOrd, Ord)]
pub struct ConnectorIdentity {
    pub connector_id: String,
    pub connector_instance: String,
}

/// A complete snapshot of the events of one observed session. An event keeps the
/// identity that its provider gave it, so that one event seen through two connectors
/// is one row.
#[derive(Debug)]
pub struct ConnectorEvidence {
    pub source_stamp: String,
    pub source_bytes: i64,
    pub events: Vec<SessionEvent>,
}

/// What an adapter acquired of a session.
#[derive(Debug)]
pub enum AcquiredEvidence {
    /// The local files of the observation are to be read.
    LocalFiles,
    Events(ConnectorEvidence),
    /// The records of a full export.
    ClaudeFull { records: Vec<JsonValue>, source_stamp: String, source_bytes: i64 },
    /// The changes of a task.
    CodexDiff { diff: String, source_stamp: String, source_bytes: i64 },
    /// The adapter cannot acquire evidence, and says why.
    CapabilityLimited { code: &'static str, message: String },
}

impl ConnectorIdentity {
    /// The identity of a connector instance.
    pub fn new(id: String, instance: String) -> (r: Self)
        ensures
            r.connector_id@ == id@,
            r.connector_instance@ == instance@,
    {
        ConnectorIdentity { connector_id: id, connector_instance: instance }
    }
}

/// An installed adapter, by what selection reads of it.
#[derive(Debug)]
pub struct Connector {
    pub source: String,
    pub location: SessionLocation,
    pub connector_id: String,
    pub connector_instance: String,
}

/// The installed adapters, in the order of their registration.
#[derive(Debug)]
pub struct SourceRegistry {
    pub connectors: Vec<Connector>,
}

/// Whether two adapters cannot both be installed.
pub open spec fn same_connector(a: Connector, b: Connector) -> bool {
    &&& a.source@ == b.source@
    &&& a.location == b.location
    &&& a.connector_id@ == b.connector_id@
    &&& a.connector_instance@ == b.connector_instance@
}

/// Whether an adapter is the instance that a caller selected.
pub open spec fn is_instance(connector: Connector, identity: ConnectorIdentity) -> bool {
    connector.connector_id@ == identity.connector_id@ && connector.connector_instance@
        == identity.connector_instance@
}

/// Whether two selections are the same.
pub open spec fn same_identity(a: ConnectorIdentity, b: ConnectorIdentity) -> bool {
    a.connector_id@ == b.connector_id@ && a.connector_instance@ == b.connector_instance@
}

/// Whether no adapter is installed twice.
pub open spec fn all_distinct(connectors: Seq<Connector>) -> bool {
    forall|i: int, j: int|
        0 <= i < j < connectors.len() ==> !same_connector(
            #[trigger] connectors[i],
            #[trigger] connectors[j],
        )
}

/// Whether a location is in a scope.
pub open spec fn in_scope(scope: SessionScope, location: SessionLocation) -> bool {
    match scope {
        SessionScope::All => true,
        SessionScope::Local => location == SessionLocation::Local,
        SessionScope::Remote => location == SessionLocation::Remote,
    }
}

/// Whether a selection asks for an adapter: it is in scope, its source is asked
/// for, and it is either local or selected.
pub open spec fn asks_for(
    connector: Connector,
    scope: SessionScope,
    sources: Seq<Seq<char>>,
    selected: Seq<ConnectorIdentity>,
) -> bool {
    &&& in_scope(scope, connector.location)
    &&& sources.len() == 0 || sources.contains(connector.source@)
    &&& connector.location == SessionLocation::Local || exists|k: int|
        0 <= k < selected.len() && is_instance(connector, #[trigger] selected[k])
}

/// What is wrong with the selected connector `i`.
pub open spec fn identity_fault(
    connectors: Seq<Connector>,
    selected: Seq<ConnectorIdentity>,
    i: int,
) -> Option<Seq<char>> {
    if exists|j: int| 0 <= j < i && same_identity(#[trigger] selected[j], selected[i]) {
        Some("INVALID_ARGUMENT: duplicate selected source connector"@)
    } else if !exists|k: int|
        0 <= k < connectors.len() && is_instance(#[trigger] connectors[k], selected[i]) {
        Some(
            "INVALID_ARGUMENT: unknown source connector "@ + selected[i].connector_id@ + "/"@
                + selected[i].connector_instance@,
        )
    } else {
        None
    }
}

/// What is wrong with the selected connectors from `from` on.
pub open spec fn identities_fault(
    connectors: Seq<Connector>,
    selected: Seq<ConnectorIdentity>,
    from: int,
) -> Option<Seq<char>>
    decreases selected.len() - from,
{
    if from >= selected.len() {
        None
    } else {
        match identity_fault(connectors, selected, from) {
            Some(fault) => Some(fault),
            None => identities_fault(connectors, selected, from + 1),
        }
    }
}

/// The first of some sources that is not known.
pub open spec fn sources_fault(sources: Seq<Seq<char>>, first: Seq<char>) -> Option<Seq<char>>
    decreases sources.len(),
{
    if sources.len() == 0 {
        None
    } else if !store::is_source(sources[0], first) {
        Some("INVALID_ARGUMENT: unknown history source "@ + sources[0])
    } else {
        sources_fault(sources.drop_first(), first)
    }
}

/// What is wrong with a selection.
pub open spec fn selection_fault(
    connectors: Seq<Connector>,
    sources: Seq<Seq<char>>,
    selected: Seq<ConnectorIdentity>,
    first: Seq<char>,
) -> Option<Seq<char>> {
    match identities_fault(connectors, selected, 0) {
        Some(fault) => Some(fault),
        None => sources_fault(sources, first),
    }
}

/// The places of the first `n` adapters that a selection asks for, in order.
pub open spec fn places_of(
    connectors: Seq<Connector>,
    scope: SessionScope,
    sources: Seq<Seq<char>>,
    selected: Seq<ConnectorIdentity>,
    n: int,
) -> Seq<usize>
    decreases n,
{
    if n <= 0 {
        Seq::empty()
    } else {
        let rest = places_of(connectors, scope, sources, selected, n - 1);
        if asks_for(connectors[n - 1], scope, sources, selected) {
            rest.push((n - 1) as usize)
        } else {
            rest
        }
    }
}

/// The places of the adapters that a selection asks for.
pub open spec fn selection(
    connectors: Seq<Connector>,
    scope: SessionScope,
    sources: Seq<Seq<char>>,
    selected: Seq<ConnectorIdentity>,
) -> Seq<usize> {
    places_of(connectors, scope, sources, selected, connectors.len() as int)
}

fn instance_matches(connector: &Connector, identity: &ConnectorIdentity) -> (r: bool)
    ensures
        r == is_instance(*connector, *identity),
{
    same_text(connector.connector_id.as_str(), identity.connector_id.as_str()) && same_text(
        connector.connector_instance.as_str(),
        identity.connector_instance.as_str(),
    )
}

fn location_matches(scope: SessionScope, location: SessionLocation) -> (r: bool)
    ensures
        r == in_scope(scope, location),
{
    match scope {
        SessionScope::All => true,
        SessionScope::Local => location == SessionLocation::Local,
        SessionScope::Remote => location == SessionLocation::Remote,
    }
}

fn is_selected(connector: &Connector, selected: &Vec<ConnectorIdentity>) -> (r: bool)
    ensures
        r == exists|k: int| 0 <= k < selected@.len() && is_instance(
            *connector,
            #[trigger] selected@[k],
        ),
{
    let mut k: usize = 0;
    while k < selected.len()
        invariant
            k <= selected.len(),
            forall|j: int| 0 <= j < k ==> !is_instance(*connector, #[trigger] selected@[j]),
        decreases selected.len() - k,
    {
        if instance_matches(connector, &selected[k]) {
            return true;
        }
        k = k + 1;
    }
    false
}

/// Whether an adapter of this identity is among those that are installed.
pub open spec fn is_installed(connectors: Seq<Connector>, connector: Connector) -> bool {
    exists|i: int|
        0 <= i < connectors.len() && same_connector(#[trigger] connectors[i], connector)
}

impl SourceRegistry {
    /// A registry with nothing installed.
    pub fn new() -> (r: Self)
        ensures
            r.connectors@.len() == 0,
            all_distinct(r.connectors@),
    {
        SourceRegistry { connectors: Vec::new() }
    }

    /// A registry with the adapters of this machine installed.
    pub fn local(connectors: Vec<Connector>) -> (r: Self)
        requires
            all_distinct(connectors@),
        ensures
            r.connectors == connectors,
            all_distinct(r.connectors@),
    {
        SourceRegistry { connectors }
    }

    /// Installs an adapter, where the key that it observes under is a valid one and no
    /// such adapter is installed yet. `key_fault` is what validating that key found.
    pub fn register(&mut self, connector: Connector, key_fault: &Option<String>) -> (r: Result<
        (),
        String,
    >)
        requires
            all_distinct(old(self).connectors@),
        ensures
            all_distinct(final(self).connectors@),
            match r {
                Ok(_) => {
                    &&& *key_fault is None
                    &&& final(self).connectors@ == old(self).connectors@.push(connector)
                    &&& !is_installed(old(self).connectors@, connector)
                },
                Err(fault) => {
                    &&& final(self).connectors == old(self).connectors
                    &&& match key_fault {
                        Some(found) => fault@ == found@,
                        None => {
                            &&& fault@ == "INVALID_ARGUMENT: duplicate source connector instance"@
                            &&& is_installed(old(self).connectors@, connector)
                        },
                    }
                },
            },
    {
        if let Some(found) = key_fault {
            return Err(found.as_str().to_owned());
        }
        let mut i: usize = 0;
        while i < self.connectors.len()
            invariant
                i <= self.connectors.len(),
                *self == *old(self),
                *key_fault is None,
                all_distinct(self.connectors@),
                forall|j: int|
                    0 <= j < i ==> !same_connector(#[trigger] self.connectors@[j], connector),
            decreases self.connectors.len() - i,
        {
            let other = &self.connectors[i];
            if same_text(other.source.as_str(), connector.source.as_str()) && other.location
                == connector.location && same_text(
                other.connector_id.as_str(),
                connector.connector_id.as_str(),
            ) && same_text(
                other.connector_instance.as_str(),
                connector.connector_instance.as_str(),
            ) {
                return Err("INVALID_ARGUMENT: duplicate source connector instance".to_owned());
            }
            i = i + 1;
        }
        self.connectors.push(connector);
        Ok(())
    }

    /// Resolves a complete selection, before any adapter is called: the places of
    /// the adapters that it asks for.
    pub fn select(
        &self,
        names: &SourceNames,
        scope: SessionScope,
        sources: &Vec<String>,
        selected: &Vec<ConnectorIdentity>,
    ) -> (r: Result<Vec<usize>, String>)
        ensures
            match r {
                Err(fault) => selection_fault(
                    self.connectors@,
                    text::views(sources@),
                    selected@,
                    names.claude@,
                ) == Some(fault@),
                Ok(places) => selection_fault(
                    self.connectors@,
                    text::views(sources@),
                    selected@,
                    names.claude@,
                ) is None && places@ == selection(
                    self.connectors@,
                    scope,
                    text::views(sources@),
                    selected@,
                ),
            },
    {
        let ghost asked = text::views(sources@);
        let ghost connectors = self.connectors@;
        let mut i: usize = 0;
        while i < selected.len()
            invariant
                i <= selected.len(),
                connectors == self.connectors@,
                identities_fault(connectors, selected@, 0) == identities_fault(
                    connectors,
                    selected@,
                    i as int,
                ),
            decreases selected.len() - i,
        {
            let mut j: usize = 0;
            while j < i
                invariant
                    j <= i < selected.len(),
                    connectors == self.connectors@,
                    identities_fault(connectors, selected@, 0) == identities_fault(
                        connectors,
                        selected@,
                        i as int,
                    ),
                    forall|k: int|
                        0 <= k < j ==> !same_identity(
                            #[trigger] selected@[k],
                            selected@[i as int],
                        ),
                decreases i - j,
            {
                if same_text(
                    selected[j].connector_id.as_str(),
                    selected[i].connector_id.as_str(),
                ) && same_text(
                    selected[j].connector_instance.as_str(),
                    selected[i].connector_instance.as_str(),
                ) {
                    return Err("INVALID_ARGUMENT: duplicate selected source connector".to_owned());
                }
                j = j + 1;
            }
            let mut known = false;
            let mut k: usize = 0;
            while k < self.connectors.len()
                invariant
                    i < selected.len(),
                    k <= self.connectors.len(),
                    connectors == self.connectors@,
                    known == exists|m: int|
                        0 <= m < k && is_instance(
                            #[trigger] connectors[m],
                            selected@[i as int],
                        ),
                decreases self.connectors.len() - k,
            {
                if instance_matches(&self.connectors[k], &selected[i]) {
                    known = true;
                    assert(is_instance(connectors[k as int], selected@[i as int]));
                }
                k = k + 1;
            }
            if !known {
                let mut message = "INVALID_ARGUMENT: unknown source connector ".to_owned();
                message.append(selected[i].connector_id.as_str());
                message.append("/");
                message.append(selected[i].connector_instance.as_str());
                return Err(message);
            }
            i = i + 1;
        }
        let mut s: usize = 0;
        assert(asked.skip(0) =~= asked);
        while s < sources.len()
            invariant
                s <= sources.len(),
                connectors == self.connectors@,
                asked == text::views(sources@),
                identities_fault(connectors, selected@, 0) is None,
                sources_fault(asked, names.claude@) == sources_fault(
                    asked.skip(s as int),
                    names.claude@,
                ),
            decreases sources.len() - s,
        {
            assert(asked.skip(s as int)[0] == sources@[s as int]@);
            assert(asked.skip(s as int).drop_first() =~= asked.skip(s + 1));
            if !store::known_source(sources[s].as_str(), names) {
                return Err(
                    text::concat2(
                        "INVALID_ARGUMENT: unknown history source ",
                        sources[s].as_str(),
                    ),
                );
            }
            s = s + 1;
        }
        let mut places: Vec<usize> = Vec::new();
        let mut c: usize = 0;
        while c < self.connectors.len()
            invariant
                c <= self.connectors.len(),
                connectors == self.connectors@,
                asked == text::views(sources@),
                places@ == places_of(connectors, scope, asked, selected@, c as int),
            decreases self.connectors.len() - c,
        {
            let connector = &self.connectors[c];
            if location_matches(scope, connector.location) && (sources.len() == 0
                || text::contains_text(sources, connector.source.as_str())) && (connector.location
                == SessionLocation::Local || is_selected(connector, selected)) {
                places.push(c);
            }
            c = c + 1;
        }
        Ok(places)
    }

    /// The adapters that a discovery calls. A remote discovery needs at least one.
    pub fn discover_at(
        &self,
        names: &SourceNames,
        scope: SessionScope,
        sources: &Vec<String>,
        selected: &Vec<ConnectorIdentity>,
    ) -> (r: Result<Vec<usize>, String>)
        ensures
            discovery_outcome(r) == discovery(
                self.connectors@,
                scope,
                text::views(sources@),
                selected@,
                names.claude@,
            ),
    {
        match self.select(names, scope, sources, selected) {
            Err(fault) => Err(fault),
            Ok(places) => if scope == SessionScope::Remote && places.len() == 0 {
                Err("CONNECTOR_NOT_CONFIGURED: no selected remote source connector".to_owned())
            } else {
                Ok(places)
            },
        }
    }

    /// The adapters whose catalogs a sync refreshes, of every source.
    pub fn sync_at(
        &self,
        names: &SourceNames,
        scope: SessionScope,
        selected: &Vec<ConnectorIdentity>,
    ) -> (r: Result<Vec<usize>, String>)
        ensures
            discovery_outcome(r) == discovery(
                self.connectors@,
                scope,
                Seq::empty(),
                selected@,
                names.claude@,
            ),
    {
        let sources: Vec<String> = Vec::new();
        assert(text::views(sources@) =~= Seq::<Seq<char>>::empty());
        self.discover_at(names, scope, &sources, selected)
    }

    /// The adapter that a hydration calls: the selected instance, where it serves
    /// the source at the one location that was asked for.
    pub fn hydrate_at(
        &self,
        names: &SourceNames,
        scope: SessionScope,
        source: &str,
        selected: &ConnectorIdentity,
    ) -> (r: Result<usize, String>)
        ensures
            match r {
                Ok(place) => hydration(
                    self.connectors@,
                    scope,
                    source@,
                    *selected,
                    names.claude@,
                ) == Ok::<usize, Seq<char>>(place),
                Err(fault) => hydration(
                    self.connectors@,
                    scope,
                    source@,
                    *selected,
                    names.claude@,
                ) == Err::<
                    usize,
                    Seq<char>,
                >(fault@),
            },
    {
        if scope == SessionScope::All {
            return Err("INVALID_ARGUMENT: hydration requires one location".to_owned());
        }
        let mut sources: Vec<String> = Vec::new();
        sources.push(source.to_owned());
        let mut only: Vec<ConnectorIdentity> = Vec::new();
        only.push(
            ConnectorIdentity {
                connector_id: selected.connector_id.clone(),
                connector_instance: selected.connector_instance.clone(),
            },
        );
        proof {
            assert(text::views(sources@) =~= seq![source@]);
            assert(only@ =~= seq![*selected]);
        }
        let places = match self.select(names, scope, &sources, &only) {
            Ok(places) => places,
            Err(fault) => return Err(fault),
        };
        let ghost all = places@;
        let total: usize = self.connectors.len();
        let mut i: usize = 0;
        assert(all.skip(0) =~= all);
        proof {
            assert(self.connectors@.len() == total);
            lemma_places_bounded(
                self.connectors@,
                scope,
                seq![source@],
                seq![*selected],
                self.connectors@.len() as int,
            );
        }
        while i < places.len()
            invariant
                i <= places.len(),
                all == places@,
                scope != SessionScope::All,
                forall|k: int| 0 <= k < all.len() ==> (#[trigger] all[k]) < self.connectors@.len(),
                selection_fault(
                    self.connectors@,
                    seq![source@],
                    seq![*selected],
                    names.claude@,
                ) is None,
                all == selection(self.connectors@, scope, seq![source@], seq![*selected]),
                first_instance(self.connectors@, all, *selected) == first_instance(
                    self.connectors@,
                    all.skip(i as int),
                    *selected,
                ),
            decreases places.len() - i,
        {
            assert(all.skip(i as int)[0] == all[i as int]);
            assert(all.skip(i as int).drop_first() =~= all.skip(i + 1));
            if instance_matches(&self.connectors[places[i]], selected) {
                return Ok(places[i]);
            }
            i = i + 1;
        }
        Err(
            "CONNECTOR_NOT_CONFIGURED: selected connector does not serve this source and location".to_owned(),
        )
    }
}

/// The first of some places at which a selected instance stands.
pub open spec fn first_instance(
    connectors: Seq<Connector>,
    places: Seq<usize>,
    selected: ConnectorIdentity,
) -> Option<usize>
    decreases places.len(),
{
    if places.len() == 0 {
        None
    } else if is_instance(connectors[places[0] as int], selected) {
        Some(places[0])
    } else {
        first_instance(connectors, places.drop_first(), selected)
    }
}

proof fn lemma_places_bounded(
    connectors: Seq<Connector>,
    scope: SessionScope,
    sources: Seq<Seq<char>>,
    selected: Seq<ConnectorIdentity>,
    n: int,
)
    requires
        0 <= n <= connectors.len() <= usize::MAX,
    ensures
        forall|k: int|
            0 <= k < places_of(connectors, scope, sources, selected, n).len() ==> (
            #[trigger] places_of(connectors, scope, sources, selected, n)[k]) < n,
    decreases n,
{
    if n > 0 {
        lemma_places_bounded(connectors, scope, sources, selected, n - 1);
        let rest = places_of(connectors, scope, sources, selected, n - 1);
        let all = places_of(connectors, scope, sources, selected, n);
        assert forall|k: int| 0 <= k < all.len() implies (#[trigger] all[k]) < n by {
            if k < rest.len() {
                assert(all[k] == rest[k]);
            }
        }
    }
}

/// The view of the outcome of a discovery.
pub open spec fn discovery_outcome(result: Result<Vec<usize>, String>) -> Result<
    Seq<usize>,
    Seq<char>,
> {
    match result {
        Ok(places) => Ok(places@),
        Err(fault) => Err(fault@),
    }
}

/// The adapters that a discovery calls, or why it calls none.
pub open spec fn discovery(
    connectors: Seq<Connector>,
    scope: SessionScope,
    sources: Seq<Seq<char>>,
    selected: Seq<ConnectorIdentity>,
    first: Seq<char>,
) -> Result<Seq<usize>, Seq<char>> {
    let places = selection(connectors, scope, sources, selected);
    match selection_fault(connectors, sources, selected, first) {
        Some(fault) => Err(fault),
        None => if scope == SessionScope::Remote && places.len() == 0 {
            Err("CONNECTOR_NOT_CONFIGURED: no selected remote source connector"@)
        } else {
            Ok(places)
        },
    }
}

/// The adapter that a hydration calls, or why it calls none.
pub open spec fn hydration(
    connectors: Seq<Connector>,
    scope: SessionScope,
    source: Seq<char>,
    selected: ConnectorIdentity,
    first: Seq<char>,
) -> Result<usize, Seq<char>> {
    if scope == SessionScope::All {
        Err("INVALID_ARGUMENT: hydration requires one location"@)
    } else {
        match selection_fault(connectors, seq![source], seq![selected], first) {
            Some(fault) => Err(fault),
            None => match first_instance(
                connectors,
                selection(connectors, scope, seq![source], seq![selected]),
                selected,
            ) {
                Some(place) => Ok(place),
                None => Err(
                    "CONNECTOR_NOT_CONFIGURED: selected connector does not serve this source and location"@,
                ),
            },
        }
    }
}

/// No remote adapter is ever called that the caller did not select.
pub proof fn law_remote_adapters_are_selected(
    connectors: Seq<Connector>,
    scope: SessionScope,
    sources: Seq<Seq<char>>,
    selected: Seq<ConnectorIdentity>,
    k: int,
)
    requires
        connectors.len() <= usize::MAX,
        0 <= k < selection(connectors, scope, sources, selected).len(),
        connectors[selection(connectors, scope, sources, selected)[k] as int].location
            == SessionLocation::Remote,
    ensures
        scope != SessionScope::Local,
        exists|i: int|
            0 <= i < selected.len() && is_instance(
                connectors[selection(connectors, scope, sources, selected)[k] as int],
                #[trigger] selected[i],
            ),
{
    lemma_places_are_asked_for(connectors, scope, sources, selected, connectors.len() as int, k);
}

proof fn lemma_places_are_asked_for(
    connectors: Seq<Connector>,
    scope: SessionScope,
    sources: Seq<Seq<char>>,
    selected: Seq<ConnectorIdentity>,
    n: int,
    k: int,
)
    requires
        0 <= n <= connectors.len() <= usize::MAX,
        0 <= k < places_of(connectors, scope, sources, selected, n).len(),
    ensures
        asks_for(
            connectors[places_of(connectors, scope, sources, selected, n)[k] as int],
            scope,
            sources,
            selected,
        ),
    decreases n,
{
    let rest = places_of(connectors, scope, sources, selected, n - 1);
    if k < rest.len() {
        lemma_places_are_asked_for(connectors, scope, sources, selected, n - 1, k);
    }
}

/// The key under which an adapter observes a session.
pub fn observation_key(connector: &Connector, session_id: &str) -> (r: ObservationKey)
    ensures
        r.source@ == connector.source@,
        r.session_id@ == session_id@,
        r.location == connector.location,
        r.connector_id@ == connector.connector_id@,
        r.connector_instance@ == connector.connector_instance@,
{
    ObservationKey {
        source: connector.source.clone(),
        session_id: session_id.to_owned(),
        location: connector.location,
        connector_id: connector.connector_id.clone(),
        connector_instance: connector.connector_instance.clone(),
    }
}

} // verus!
