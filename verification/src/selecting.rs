//! Which adapters a request calls.
//!
//! Each law speaks of one call of the registry: of the adapters that are installed, of what
//! the caller asks for, and of the adapters that are to be called.
use crate::sources;
use crate::sources::{Connector, ConnectorIdentity, SourceRegistry};
use crate::store;
use crate::store::{SessionLocation, SessionScope, SourceNames};
use crate::text;
use vstd::prelude::*;
use vstd::string::*;

verus! {

/// Whether an adapter is a selected instance.
pub open spec fn is_selected(connector: Connector, selected: Seq<ConnectorIdentity>) -> bool {
    exists|k: int|
        0 <= k < selected.len() && (#[trigger] selected[k]).connector_id@
            == connector.connector_id@ && selected[k].connector_instance@
            == connector.connector_instance@
}

/// Whether a request asks for an adapter: its location is in scope, its source is named or
/// none is, and a remote one is selected.
pub open spec fn is_asked_for(
    connector: Connector,
    scope: SessionScope,
    named: Seq<String>,
    selected: Seq<ConnectorIdentity>,
) -> bool {
    &&& match connector.location {
        SessionLocation::Local => scope != SessionScope::Remote,
        SessionLocation::Remote => scope != SessionScope::Local && is_selected(connector, selected),
    }
    &&& named.len() == 0 || exists|k: int|
        0 <= k < named.len() && (#[trigger] named[k])@ == connector.source@
}

/// Whether a selection can be met: no instance is selected twice, each is installed, and
/// each named source is known.
pub open spec fn is_sound(
    connectors: Seq<Connector>,
    names: SourceNames,
    named: Seq<String>,
    selected: Seq<ConnectorIdentity>,
) -> bool {
    &&& forall|i: int, j: int|
        0 <= i < j < selected.len() ==> (#[trigger] selected[i]).connector_id@ != (
        #[trigger] selected[j]).connector_id@ || selected[i].connector_instance@
            != selected[j].connector_instance@
    &&& forall|i: int|
        0 <= i < selected.len() ==> exists|c: int|
            0 <= c < connectors.len() && (#[trigger] connectors[c]).connector_id@ == (
            #[trigger] selected[i]).connector_id@ && connectors[c].connector_instance@
                == selected[i].connector_instance@
    &&& forall|i: int| 0 <= i < named.len() ==> is_known((#[trigger] named[i])@, names)
}

/// Whether a source is known.
pub open spec fn is_known(name: Seq<char>, names: SourceNames) -> bool {
    name == names.claude@ || name == "codex"@ || name == "cursor"@ || name == "grok"@ || name
        == "relay"@ || name == "trajectory"@ || name == "opencode"@
}

proof fn lemma_identities(connectors: Seq<Connector>, selected: Seq<ConnectorIdentity>, from: int)
    requires
        0 <= from <= selected.len(),
    ensures
        sources::identities_fault(connectors, selected, from) is None <==> forall|i: int|
            from <= i < selected.len() ==> #[trigger] sources::identity_fault(
                connectors,
                selected,
                i,
            ) is None,
    decreases selected.len() - from,
{
    if from < selected.len() {
        lemma_identities(connectors, selected, from + 1);
        if sources::identities_fault(connectors, selected, from) is None {
            assert forall|i: int| from <= i < selected.len() implies (
            #[trigger] sources::identity_fault(connectors, selected, i)) is None by {
                if i == from {
                    assert(sources::identity_fault(connectors, selected, from) is None);
                }
            }
        }
    }
}

proof fn lemma_named(named: Seq<Seq<char>>, first: Seq<char>)
    ensures
        sources::sources_fault(named, first) is None <==> forall|i: int|
            0 <= i < named.len() ==> store::is_source(#[trigger] named[i], first),
    decreases named.len(),
{
    if named.len() > 0 {
        let rest = named.drop_first();
        lemma_named(rest, first);
        if sources::sources_fault(named, first) is None {
            assert forall|i: int| 0 <= i < named.len() implies store::is_source(
                #[trigger] named[i],
                first,
            ) by {
                if i > 0 {
                    assert(rest[i - 1] == named[i]);
                }
            }
        }
        if forall|i: int| 0 <= i < named.len() ==> store::is_source(#[trigger] named[i], first) {
            assert forall|i: int| 0 <= i < rest.len() implies store::is_source(
                #[trigger] rest[i],
                first,
            ) by {
                assert(rest[i] == named[i + 1]);
            }
            assert(store::is_source(named[0], first));
        }
    }
}

proof fn lemma_sound(
    connectors: Seq<Connector>,
    names: SourceNames,
    named: Seq<String>,
    selected: Seq<ConnectorIdentity>,
)
    ensures
        sources::selection_fault(connectors, text::views(named), selected, names.claude@) is None
            <==> is_sound(connectors, names, named, selected),
{
    let words = text::views(named);
    lemma_identities(connectors, selected, 0);
    lemma_named(words, names.claude@);
    if sources::selection_fault(connectors, words, selected, names.claude@) is None {
        assert forall|i: int, j: int| 0 <= i < j < selected.len() implies (
        #[trigger] selected[i]).connector_id@ != (#[trigger] selected[j]).connector_id@
            || selected[i].connector_instance@ != selected[j].connector_instance@ by {
            assert(sources::identity_fault(connectors, selected, j) is None);
            assert(!sources::same_identity(selected[i], selected[j]));
        }
        assert forall|i: int| 0 <= i < selected.len() implies exists|c: int|
            0 <= c < connectors.len() && (#[trigger] connectors[c]).connector_id@ == (
            #[trigger] selected[i]).connector_id@ && connectors[c].connector_instance@
                == selected[i].connector_instance@ by {
            assert(sources::identity_fault(connectors, selected, i) is None);
            let c = choose|c: int|
                0 <= c < connectors.len() && sources::is_instance(
                    #[trigger] connectors[c],
                    selected[i],
                );
            assert(connectors[c].connector_id@ == selected[i].connector_id@);
        }
        assert forall|i: int| 0 <= i < named.len() implies is_known(
            (#[trigger] named[i])@,
            names,
        ) by {
            assert(store::is_source(words[i], names.claude@));
        }
    }
    if is_sound(connectors, names, named, selected) {
        assert forall|i: int| 0 <= i < selected.len() implies (#[trigger] sources::identity_fault(
            connectors,
            selected,
            i,
        )) is None by {
            let one = selected[i];
            let c = choose|c: int|
                0 <= c < connectors.len() && (#[trigger] connectors[c]).connector_id@
                    == selected[i].connector_id@ && connectors[c].connector_instance@
                    == selected[i].connector_instance@;
            assert(sources::is_instance(connectors[c], selected[i]));
        }
        assert forall|i: int| 0 <= i < words.len() implies store::is_source(
            #[trigger] words[i],
            names.claude@,
        ) by {
            assert(is_known(named[i]@, names));
        }
    }
}

proof fn lemma_asked_for(
    connector: Connector,
    scope: SessionScope,
    named: Seq<String>,
    selected: Seq<ConnectorIdentity>,
)
    ensures
        sources::asks_for(connector, scope, text::views(named), selected) == is_asked_for(
            connector,
            scope,
            named,
            selected,
        ),
{
    let words = text::views(named);
    if words.contains(connector.source@) {
        let k = choose|k: int| 0 <= k < words.len() && words[k] == connector.source@;
        assert(named[k]@ == connector.source@);
    }
    if exists|k: int| 0 <= k < named.len() && (#[trigger] named[k])@ == connector.source@ {
        let k = choose|k: int| 0 <= k < named.len() && (#[trigger] named[k])@ == connector.source@;
        assert(words[k] == connector.source@);
    }
    if is_selected(connector, selected) {
        let k = choose|k: int|
            0 <= k < selected.len() && (#[trigger] selected[k]).connector_id@
                == connector.connector_id@ && selected[k].connector_instance@
                == connector.connector_instance@;
        assert(sources::is_instance(connector, selected[k]));
    }
    if exists|k: int|
        0 <= k < selected.len() && sources::is_instance(connector, #[trigger] selected[k]) {
        let k = choose|k: int|
            0 <= k < selected.len() && sources::is_instance(connector, #[trigger] selected[k]);
        assert(selected[k].connector_id@ == connector.connector_id@);
    }
}

/// Whether some places are those of the adapters that a request asks for, in the order of
/// their registration.
pub open spec fn are_called(
    connectors: Seq<Connector>,
    scope: SessionScope,
    named: Seq<String>,
    selected: Seq<ConnectorIdentity>,
    places: Seq<usize>,
) -> bool {
    &&& forall|i: int|
        0 <= i < places.len() ==> (#[trigger] places[i]) < connectors.len() && is_asked_for(
            connectors[places[i] as int],
            scope,
            named,
            selected,
        )
    &&& forall|i: int, j: int|
        0 <= i < j < places.len() ==> #[trigger] places[i] < #[trigger] places[j]
    &&& forall|c: int|
        0 <= c < connectors.len() && is_asked_for(#[trigger] connectors[c], scope, named, selected)
            ==> exists|i: int| 0 <= i < places.len() && #[trigger] places[i] == c
}

proof fn lemma_called(
    connectors: Seq<Connector>,
    scope: SessionScope,
    named: Seq<String>,
    selected: Seq<ConnectorIdentity>,
    n: int,
)
    requires
        0 <= n <= connectors.len() <= usize::MAX,
    ensures
        ({
            let places = sources::places_of(connectors, scope, text::views(named), selected, n);
            &&& forall|i: int|
                0 <= i < places.len() ==> (#[trigger] places[i]) < n && is_asked_for(
                    connectors[places[i] as int],
                    scope,
                    named,
                    selected,
                )
            &&& forall|i: int, j: int|
                0 <= i < j < places.len() ==> #[trigger] places[i] < #[trigger] places[j]
            &&& forall|c: int|
                0 <= c < n && is_asked_for(#[trigger] connectors[c], scope, named, selected)
                    ==> exists|i: int| 0 <= i < places.len() && #[trigger] places[i] == c
        }),
    decreases n,
{
    if n > 0 {
        lemma_called(connectors, scope, named, selected, n - 1);
        lemma_asked_for(connectors[n - 1], scope, named, selected);
        let rest = sources::places_of(connectors, scope, text::views(named), selected, n - 1);
        let places = sources::places_of(connectors, scope, text::views(named), selected, n);
        assert forall|c: int|
            0 <= c < n && is_asked_for(
                #[trigger] connectors[c],
                scope,
                named,
                selected,
            ) implies exists|i: int| 0 <= i < places.len() && #[trigger] places[i] == c by {
            if c < n - 1 {
                let i = choose|i: int| 0 <= i < rest.len() && #[trigger] rest[i] == c;
                assert(places[i] == c);
            } else {
                assert(places[rest.len() as int] == c);
            }
        }
    }
}

/// A sound selection calls exactly the adapters that it asks for, in the order of their
/// registration, and an unsound one calls none.
pub proof fn law_selection_is_what_was_asked_for(
    registry: SourceRegistry,
    names: SourceNames,
    scope: SessionScope,
    named: Vec<String>,
    selected: Vec<ConnectorIdentity>,
    result: Result<Vec<usize>, String>,
)
    requires
        call_ensures(
            SourceRegistry::select,
            (&registry, &names, scope, &named, &selected),
            result,
        ),
    ensures
        result is Ok <==> is_sound(registry.connectors@, names, named@, selected@),
        result matches Ok(places) ==> are_called(
            registry.connectors@,
            scope,
            named@,
            selected@,
            places@,
        ),
{
    lemma_sound(registry.connectors@, names, named@, selected@);
    assert(registry.connectors@.len() == registry.connectors.len());
    lemma_called(
        registry.connectors@,
        scope,
        named@,
        selected@,
        registry.connectors@.len() as int,
    );
}

/// A discovery calls exactly the adapters that it asks for. One of remote sessions alone
/// that asks for no installed adapter is refused.
pub proof fn law_discovery_calls_what_was_asked_for(
    registry: SourceRegistry,
    names: SourceNames,
    scope: SessionScope,
    named: Vec<String>,
    selected: Vec<ConnectorIdentity>,
    result: Result<Vec<usize>, String>,
)
    requires
        call_ensures(
            SourceRegistry::discover_at,
            (&registry, &names, scope, &named, &selected),
            result,
        ),
    ensures
        result is Ok <==> is_sound(registry.connectors@, names, named@, selected@) && (scope
            == SessionScope::Remote ==> exists|c: int|
            0 <= c < registry.connectors@.len() && is_asked_for(
                #[trigger] registry.connectors@[c],
                scope,
                named@,
                selected@,
            )),
        result matches Ok(places) ==> are_called(
            registry.connectors@,
            scope,
            named@,
            selected@,
            places@,
        ),
{
    lemma_sound(registry.connectors@, names, named@, selected@);
    assert(registry.connectors@.len() == registry.connectors.len());
    lemma_called(
        registry.connectors@,
        scope,
        named@,
        selected@,
        registry.connectors@.len() as int,
    );
    let places = sources::selection(
        registry.connectors@,
        scope,
        text::views(named@),
        selected@,
    );
    if places.len() > 0 {
        assert(is_asked_for(
            registry.connectors@[places[0] as int],
            scope,
            named@,
            selected@,
        ));
    }
}

/// A sync refreshes exactly the adapters in scope, of every source.
pub proof fn law_sync_calls_every_source(
    registry: SourceRegistry,
    names: SourceNames,
    scope: SessionScope,
    none: Vec<String>,
    selected: Vec<ConnectorIdentity>,
    result: Result<Vec<usize>, String>,
)
    requires
        call_ensures(SourceRegistry::sync_at, (&registry, &names, scope, &selected), result),
        none@.len() == 0,
    ensures
        result is Ok <==> is_sound(registry.connectors@, names, none@, selected@) && (scope
            == SessionScope::Remote ==> exists|c: int|
            0 <= c < registry.connectors@.len() && is_asked_for(
                #[trigger] registry.connectors@[c],
                scope,
                none@,
                selected@,
            )),
        result matches Ok(places) ==> are_called(
            registry.connectors@,
            scope,
            none@,
            selected@,
            places@,
        ),
{
    assert(text::views(none@) =~= Seq::<Seq<char>>::empty());
    lemma_sound(registry.connectors@, names, none@, selected@);
    assert(registry.connectors@.len() == registry.connectors.len());
    lemma_called(
        registry.connectors@,
        scope,
        none@,
        selected@,
        registry.connectors@.len() as int,
    );
    let places = sources::selection(
        registry.connectors@,
        scope,
        text::views(none@),
        selected@,
    );
    if places.len() > 0 {
        assert(is_asked_for(registry.connectors@[places[0] as int], scope, none@, selected@));
    }
}

/// Whether an adapter is the one that a hydration asks for: the selected instance, which
/// serves the source at the location.
pub open spec fn serves(
    connector: Connector,
    scope: SessionScope,
    source: Seq<char>,
    selected: ConnectorIdentity,
) -> bool {
    &&& connector.source@ == source
    &&& connector.connector_id@ == selected.connector_id@
    &&& connector.connector_instance@ == selected.connector_instance@
    &&& match connector.location {
        SessionLocation::Local => scope == SessionScope::Local,
        SessionLocation::Remote => scope == SessionScope::Remote,
    }
}

proof fn lemma_first_instance(
    connectors: Seq<Connector>,
    places: Seq<usize>,
    selected: ConnectorIdentity,
)
    ensures
        match sources::first_instance(connectors, places, selected) {
            Some(place) => exists|i: int|
                0 <= i < places.len() && #[trigger] places[i] == place && sources::is_instance(
                    connectors[place as int],
                    selected,
                ),
            None => forall|i: int|
                0 <= i < places.len() ==> !sources::is_instance(
                    connectors[(#[trigger] places[i]) as int],
                    selected,
                ),
        },
    decreases places.len(),
{
    if places.len() > 0 {
        let rest = places.drop_first();
        lemma_first_instance(connectors, rest, selected);
        if sources::is_instance(connectors[places[0] as int], selected) {
            assert(places[0] == places[0]);
        } else {
            match sources::first_instance(connectors, rest, selected) {
                Some(place) => {
                    let i = choose|i: int|
                        0 <= i < rest.len() && #[trigger] rest[i] == place && sources::is_instance(
                            connectors[place as int],
                            selected,
                        );
                    assert(places[i + 1] == place);
                },
                None => {
                    assert forall|i: int| 0 <= i < places.len() implies !sources::is_instance(
                        connectors[(#[trigger] places[i]) as int],
                        selected,
                    ) by {
                        if i > 0 {
                            assert(rest[i - 1] == places[i]);
                        }
                    }
                },
            }
        }
    }
}

/// A hydration calls the selected instance, and only where it serves the source at the one
/// location that was asked for; it is refused exactly where there is none, the source is
/// not known, or more than one location was asked for.
pub proof fn law_hydration_calls_the_selected_instance(
    registry: SourceRegistry,
    names: SourceNames,
    scope: SessionScope,
    source: &str,
    selected: ConnectorIdentity,
    result: Result<usize, String>,
)
    requires
        call_ensures(
            SourceRegistry::hydrate_at,
            (&registry, &names, scope, source, &selected),
            result,
        ),
    ensures
        result matches Ok(place) ==> place < registry.connectors@.len() && serves(
            registry.connectors@[place as int],
            scope,
            source@,
            selected,
        ),
        result is Ok <==> scope != SessionScope::All && is_known(source@, names) && exists|c: int|
            0 <= c < registry.connectors@.len() && serves(
                #[trigger] registry.connectors@[c],
                scope,
                source@,
                selected,
            ),
{
    let connectors = registry.connectors@;
    assert(connectors.len() == registry.connectors.len());
    let words = seq![source@];
    let only = seq![selected];
    if scope != SessionScope::All {
        lemma_one_place(connectors, scope, source@, selected, connectors.len() as int);
        lemma_identities(connectors, only, 0);
        lemma_named(words, names.claude@);
        let places = sources::selection(connectors, scope, words, only);
        lemma_first_instance(connectors, places, selected);
        assert(sources::sources_fault(words, names.claude@) is None <==> is_known(
            source@,
            names,
        )) by {
            assert(words[0] == source@);
        }
        if exists|c: int|
            0 <= c < connectors.len() && serves(
                #[trigger] connectors[c],
                scope,
                source@,
                selected,
            ) {
            let c = choose|c: int|
                0 <= c < connectors.len() && serves(
                    #[trigger] connectors[c],
                    scope,
                    source@,
                    selected,
                );
            assert(sources::is_instance(connectors[c], selected));
            assert forall|i: int| 0 <= i < only.len() implies (#[trigger] sources::identity_fault(
                connectors,
                only,
                i,
            )) is None by {
                assert(only[i] == selected);
            }
        }
    }
}

proof fn lemma_one_place(
    connectors: Seq<Connector>,
    scope: SessionScope,
    source: Seq<char>,
    selected: ConnectorIdentity,
    n: int,
)
    requires
        0 <= n <= connectors.len() <= usize::MAX,
        scope != SessionScope::All,
    ensures
        ({
            let places = sources::places_of(connectors, scope, seq![source], seq![selected], n);
            &&& forall|i: int|
                0 <= i < places.len() ==> (#[trigger] places[i]) < n && (sources::is_instance(
                    connectors[places[i] as int],
                    selected,
                ) ==> serves(connectors[places[i] as int], scope, source, selected))
            &&& forall|c: int|
                0 <= c < n && serves(#[trigger] connectors[c], scope, source, selected)
                    ==> exists|i: int| 0 <= i < places.len() && #[trigger] places[i] == c
        }),
    decreases n,
{
    if n > 0 {
        lemma_one_place(connectors, scope, source, selected, n - 1);
        let words = seq![source];
        let only = seq![selected];
        let rest = sources::places_of(connectors, scope, words, only, n - 1);
        let places = sources::places_of(connectors, scope, words, only, n);
        let last = connectors[n - 1];
        assert(words.contains(last.source@) <==> last.source@ == source) by {
            assert(words[0] == source);
        }
        if serves(last, scope, source, selected) {
            assert(sources::is_instance(last, only[0]));
        }
        assert forall|c: int|
            0 <= c < n && serves(
                #[trigger] connectors[c],
                scope,
                source,
                selected,
            ) implies exists|i: int| 0 <= i < places.len() && #[trigger] places[i] == c by {
            if c < n - 1 {
                let i = choose|i: int| 0 <= i < rest.len() && #[trigger] rest[i] == c;
                assert(places[i] == c);
            } else {
                assert(places[rest.len() as int] == c);
            }
        }
    }
}

} // verus!
