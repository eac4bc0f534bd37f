//! The capability catalog: which services of the hub apply to which entities.
use vstd::prelude::*;
use vstd::string::*;
use crate::text::{find_char, index_of, same_text};

verus! {

/// Prefix of every command of the catalog: the bus topic that calls a service.
pub const POST_SERVICE_TOPIC: &'static str = "homeassistant.post_service";

/// One service of a domain, as the hub's service catalog lists it.
pub struct ServiceInfo {
    pub name: String,
    pub description: String,
}

/// The services that the hub registers under one domain.
pub struct DomainServices {
    pub domain: String,
    pub services: Vec<ServiceInfo>,
}

/// One advertised action: a human description and the command that runs it.
pub struct CapabilityEntry {
    pub description: String,
    pub command: String,
}

impl View for CapabilityEntry {
    type V = (Seq<char>, Seq<char>);

    open spec fn view(&self) -> (Seq<char>, Seq<char>) {
        (self.description@, self.command@)
    }
}

/// The catalog is inconsistent with the supported entity types: a retained
/// entity's domain has no service at all.
pub enum BuildError {
    MissingServices { domain: String, entity_id: String },
}

/// Domain of an entity id: the text before its first `.` (all of it if none).
pub open spec fn domain_of(id: Seq<char>) -> Seq<char> {
    id.subrange(0, index_of(id, '.') as int)
}

/// The entity types whose actions the catalog advertises.
pub open spec fn supported(domain: Seq<char>) -> bool {
    domain == "alarm_control_panel"@ || domain == "light"@ || domain == "media_player"@
        || domain == "remote"@
}

/// Services registered for a domain; where the catalog lists the domain more
/// than once, its last listing counts.
pub open spec fn services_for(catalog: Seq<DomainServices>, domain: Seq<char>) -> Option<
    Seq<ServiceInfo>,
>
    decreases catalog.len(),
{
    if catalog.len() == 0 {
        None
    } else if catalog.last().domain@ == domain {
        Some(catalog.last().services@)
    } else {
        services_for(catalog.drop_last(), domain)
    }
}

/// The (description, command) pair that advertises `service` on entity `id`.
pub open spec fn entry_for(domain: Seq<char>, service: ServiceInfo, id: Seq<char>) -> (
    Seq<char>,
    Seq<char>,
) {
    (
        service.description@ + seq![' '] + id,
        POST_SERVICE_TOPIC@ + seq![' '] + domain + seq![' '] + service.name@ + seq![' '] + id,
    )
}

/// Whether entity `id` is of a supported type whose domain has no service.
pub open spec fn lacks_services(catalog: Seq<DomainServices>, id: Seq<char>) -> bool {
    let d = domain_of(id);
    supported(d) && match services_for(catalog, d) {
        Some(s) => s.len() == 0,
        None => true,
    }
}

/// Entries for one entity: one per service of its domain, in catalog order,
/// none for an unsupported entity type.
pub open spec fn entries_of(catalog: Seq<DomainServices>, id: Seq<char>) -> Seq<
    (Seq<char>, Seq<char>),
> {
    let d = domain_of(id);
    if supported(d) {
        match services_for(catalog, d) {
            Some(s) => s.map_values(|x: ServiceInfo| entry_for(d, x, id)),
            None => seq![],
        }
    } else {
        seq![]
    }
}

/// Entries for all entities, entity by entity in order.
pub open spec fn all_entries(catalog: Seq<DomainServices>, ids: Seq<String>) -> Seq<
    (Seq<char>, Seq<char>),
>
    decreases ids.len(),
{
    if ids.len() == 0 {
        seq![]
    } else {
        all_entries(catalog, ids.drop_last()) + entries_of(catalog, ids.last()@)
    }
}

/// Domain of an entity id.
pub fn entity_domain(id: &str) -> (r: String)
    ensures
        r@ == domain_of(id@),
{
    let k = find_char(id, '.');
    String::from_str(id.substring_char(0, k))
}

/// Whether the catalog advertises entities of this domain.
pub fn is_supported(domain: &str) -> (r: bool)
    ensures
        r == supported(domain@),
{
    same_text(domain, "alarm_control_panel") || same_text(domain, "light") || same_text(
        domain,
        "media_player",
    ) || same_text(domain, "remote")
}

/// Index of the listing of `domain` that counts (the last one).
fn find_domain(catalog: &Vec<DomainServices>, domain: &str) -> (r: Option<usize>)
    ensures
        match r {
            None => services_for(catalog@, domain@) is None,
            Some(k) => k < catalog@.len() && services_for(catalog@, domain@) == Some(
                catalog@[k as int].services@,
            ),
        },
{
    let mut i: usize = catalog.len();
    assert(catalog@.subrange(0, i as int) =~= catalog@);
    while i > 0
        invariant
            i <= catalog@.len(),
            services_for(catalog@, domain@) == services_for(catalog@.subrange(0, i as int), domain@),
        decreases i,
    {
        let ghost sub = catalog@.subrange(0, i as int);
        if same_text(catalog[i - 1].domain.as_str(), domain) {
            return Some(i - 1);
        }
        assert(sub.drop_last() =~= catalog@.subrange(0, i - 1));
        i = i - 1;
    }
    assert(catalog@.subrange(0, 0) =~= Seq::<DomainServices>::empty());
    None
}

/// Builds the capability catalog from the hub's service catalog and the ids
/// of its entities.
///
/// Entities of an unsupported type are left out. For each other entity, in
/// order, one entry per service of its domain, with description
/// `"<service description> <entity id>"` and command
/// `"<post-service topic> <domain> <service> <entity id>"`. Fails, naming the
/// first such entity, where a supported entity's domain has no service.
/// Two entries may share a description: read as a map, the later one wins.
pub fn build(catalog: &Vec<DomainServices>, entity_ids: &Vec<String>) -> (r: Result<
    Vec<CapabilityEntry>,
    BuildError,
>)
    ensures
        match r {
            Ok(entries) => (forall|i: int|
                0 <= i < entity_ids@.len() ==> !lacks_services(catalog@, #[trigger] entity_ids@[i]@))
                && entries@.map_values(|e: CapabilityEntry| e@) == all_entries(
                catalog@,
                entity_ids@,
            ),
            Err(BuildError::MissingServices { domain, entity_id }) => exists|k: int|
                0 <= k < entity_ids@.len() && lacks_services(catalog@, #[trigger] entity_ids@[k]@)
                    && (forall|j: int|
                    0 <= j < k ==> !lacks_services(catalog@, #[trigger] entity_ids@[j]@))
                    && entity_id@ == entity_ids@[k]@ && domain@ == domain_of(entity_ids@[k]@),
        },
{
    let mut out: Vec<CapabilityEntry> = Vec::new();
    let n = entity_ids.len();
    let mut i: usize = 0;
    while i < n
        invariant
            n == entity_ids@.len(),
            i <= n,
            forall|j: int| 0 <= j < i ==> !lacks_services(catalog@, #[trigger] entity_ids@[j]@),
            out@.map_values(|e: CapabilityEntry| e@) == all_entries(
                catalog@,
                entity_ids@.subrange(0, i as int),
            ),
        decreases n - i,
    {
        let id = &entity_ids[i];
        let ghost before = out@.map_values(|e: CapabilityEntry| e@);
        assert(entity_ids@.subrange(0, i + 1).drop_last() =~= entity_ids@.subrange(0, i as int));
        assert(entity_ids@.subrange(0, i + 1).last() == entity_ids@[i as int]);
        let domain = entity_domain(id.as_str());
        if is_supported(domain.as_str()) {
            let found = find_domain(catalog, domain.as_str());
            match found {
                None => {
                    return Err(BuildError::MissingServices { domain, entity_id: id.clone() });
                },
                Some(k) => {
                    let services = &catalog[k].services;
                    if services.len() == 0 {
                        return Err(BuildError::MissingServices { domain, entity_id: id.clone() });
                    }
                    let m = services.len();
                    let mut s: usize = 0;
                    while s < m
                        invariant
                            m == services@.len(),
                            s <= m,
                            i < n,
                            n == entity_ids@.len(),
                            id@ == entity_ids@[i as int]@,
                            domain@ == domain_of(entity_ids@[i as int]@),
                            out@.map_values(|e: CapabilityEntry| e@) == before + services@.subrange(
                                0,
                                s as int,
                            ).map_values(
                                |x: ServiceInfo| entry_for(domain@, x, entity_ids@[i as int]@),
                            ),
                        decreases m - s,
                    {
                        let svc = &services[s];
                        proof {
                            reveal_strlit(" ");
                        }
                        let description = svc.description.clone().concat(" ").concat(id.as_str());
                        let command = String::from_str(POST_SERVICE_TOPIC).concat(" ").concat(
                            domain.as_str(),
                        ).concat(" ").concat(svc.name.as_str()).concat(" ").concat(id.as_str());
                        let ghost prev = out@;
                        out.push(CapabilityEntry { description, command });
                        assert(out@ =~= prev.push(out@.last()));
                        assert(out@.last()@ == entry_for(
                            domain@,
                            services@[s as int],
                            entity_ids@[i as int]@,
                        ));
                        assert(services@.subrange(0, s + 1) =~= services@.subrange(
                            0,
                            s as int,
                        ).push(services@[s as int]));
                        proof {
                            let f = |x: ServiceInfo| entry_for(domain@, x, entity_ids@[i as int]@);
                            let g = |e: CapabilityEntry| e@;
                            assert(services@.subrange(0, s + 1).map_values(f) =~= services@.subrange(
                                0,
                                s as int,
                            ).map_values(f).push(f(services@[s as int])));
                            assert(out@.map_values(g) =~= prev.map_values(g).push(out@.last()@));
                        }
                        assert(out@.map_values(|e: CapabilityEntry| e@) =~= before
                            + services@.subrange(0, s + 1).map_values(
                            |x: ServiceInfo| entry_for(domain@, x, entity_ids@[i as int]@),
                        ));
                        s = s + 1;
                    }
                    assert(services@.subrange(0, m as int) =~= services@);
                },
            }
        }
        assert(out@.map_values(|e: CapabilityEntry| e@) =~= all_entries(
            catalog@,
            entity_ids@.subrange(0, i + 1),
        ));
        i = i + 1;
    }
    assert(entity_ids@.subrange(0, n as int) =~= entity_ids@);
    Ok(out)
}

/// Whether entry `e` is one of the entries of an entity of a supported type
/// in `ids`.
pub open spec fn from_supported_entity(
    catalog: Seq<DomainServices>,
    ids: Seq<String>,
    e: (Seq<char>, Seq<char>),
) -> bool {
    exists|j: int|
        0 <= j < ids.len() && supported(domain_of(ids[j]@)) && #[trigger] entries_of(
            catalog,
            ids[j]@,
        ).contains(e)
}

/// An entity of an unsupported type is advertised by no entry: it yields no
/// entry of its own, and every entry of the catalog is one of the entries of
/// some entity of a supported type in the list.
pub proof fn lemma_unsupported_excluded(catalog: Seq<DomainServices>, ids: Seq<String>)
    ensures
        forall|id: Seq<char>| !supported(domain_of(id)) ==> #[trigger] entries_of(catalog, id)
            == Seq::<(Seq<char>, Seq<char>)>::empty(),
        forall|k: int|
            0 <= k < all_entries(catalog, ids).len() ==> from_supported_entity(
                catalog,
                ids,
                #[trigger] all_entries(catalog, ids)[k],
            ),
    decreases ids.len(),
{
    if ids.len() > 0 {
        let front = ids.drop_last();
        lemma_unsupported_excluded(catalog, front);
        let all = all_entries(catalog, ids);
        let head = all_entries(catalog, front);
        let tail = entries_of(catalog, ids.last()@);
        assert forall|k: int| 0 <= k < all.len() implies from_supported_entity(
            catalog,
            ids,
            #[trigger] all[k],
        ) by {
            if k < head.len() {
                assert(all[k] == head[k]);
                assert(from_supported_entity(catalog, front, head[k]));
                let j = choose|j: int|
                    0 <= j < front.len() && supported(domain_of(front[j]@)) && #[trigger] entries_of(
                        catalog,
                        front[j]@,
                    ).contains(head[k]);
                assert(front[j] == ids[j]);
                assert(entries_of(catalog, ids[j]@).contains(all[k]));
            } else {
                let j = ids.len() - 1;
                assert(tail[k - head.len()] == all[k]);
                assert(tail.contains(all[k]));
                assert(entries_of(catalog, ids[j]@).contains(all[k]));
            }
        }
    }
}

/// Every pair of a supported entity and a service that the catalog lists
/// for its domain is advertised by an entry with description
/// `"<service description> <entity id>"` and command
/// `"<post-service topic> <domain> <service> <entity id>"`.
pub proof fn lemma_listed_service_advertised(
    catalog: Seq<DomainServices>,
    ids: Seq<String>,
    j: int,
    m: int,
)
    requires
        0 <= j < ids.len(),
        supported(domain_of(ids[j]@)),
        services_for(catalog, domain_of(ids[j]@)) is Some,
        0 <= m < services_for(catalog, domain_of(ids[j]@))->0.len(),
    ensures
        all_entries(catalog, ids).contains(
            entry_for(
                domain_of(ids[j]@),
                services_for(catalog, domain_of(ids[j]@))->0[m],
                ids[j]@,
            ),
        ),
    decreases ids.len(),
{
    let d = domain_of(ids[j]@);
    let e = entry_for(d, services_for(catalog, d)->0[m], ids[j]@);
    let front = ids.drop_last();
    let head = all_entries(catalog, front);
    let all = all_entries(catalog, ids);
    if j < ids.len() - 1 {
        assert(front[j] == ids[j]);
        lemma_listed_service_advertised(catalog, front, j, m);
        let k = choose|k: int| 0 <= k < head.len() && head[k] == e;
        assert(all[k] == head[k]);
    } else {
        let tail = entries_of(catalog, ids[j]@);
        assert(tail[m] == e);
        assert(all[head.len() + m] == tail[m]);
    }
}

/// With no entity the catalog is empty, whatever the services.
pub proof fn lemma_no_entities_no_entries(catalog: Seq<DomainServices>)
    ensures
        all_entries(catalog, Seq::<String>::empty()) == Seq::<(Seq<char>, Seq<char>)>::empty(),
{
}

/// How many times `e` stands in `s`.
pub open spec fn occurrences(s: Seq<(Seq<char>, Seq<char>)>, e: (Seq<char>, Seq<char>)) -> nat
    decreases s.len(),
{
    if s.len() == 0 {
        0
    } else {
        occurrences(s.drop_last(), e) + if s.last() == e {
            1nat
        } else {
            0nat
        }
    }
}

proof fn lemma_occurrences_concat(
    a: Seq<(Seq<char>, Seq<char>)>,
    b: Seq<(Seq<char>, Seq<char>)>,
    e: (Seq<char>, Seq<char>),
)
    ensures
        occurrences(a + b, e) == occurrences(a, e) + occurrences(b, e),
    decreases b.len(),
{
    if b.len() > 0 {
        assert((a + b).drop_last() =~= a + b.drop_last());
        lemma_occurrences_concat(a, b.drop_last(), e);
    } else {
        assert(a + b =~= a);
    }
}

proof fn lemma_occurrences_absent(s: Seq<(Seq<char>, Seq<char>)>, e: (Seq<char>, Seq<char>))
    requires
        !s.contains(e),
    ensures
        occurrences(s, e) == 0,
    decreases s.len(),
{
    if s.len() > 0 {
        assert(s.drop_last().len() < s.len());
        if s.drop_last().contains(e) {
            let i = choose|i: int| 0 <= i < s.drop_last().len() && s.drop_last()[i] == e;
            assert(s[i] == e);
        }
        assert(s[s.len() - 1] == s.last());
        lemma_occurrences_absent(s.drop_last(), e);
    }
}

proof fn lemma_occurrences_single(s: Seq<(Seq<char>, Seq<char>)>, e: (Seq<char>, Seq<char>), m: int)
    requires
        0 <= m < s.len(),
        s[m] == e,
        forall|i: int| 0 <= i < s.len() && i != m ==> s[i] != e,
    ensures
        occurrences(s, e) == 1,
    decreases s.len(),
{
    if m == s.len() - 1 {
        assert forall|i: int| 0 <= i < s.drop_last().len() implies s.drop_last()[i] != e by {
            assert(s[i] == s.drop_last()[i]);
        }
        lemma_occurrences_absent(s.drop_last(), e);
    } else {
        assert(s.drop_last()[m] == s[m]);
        assert forall|i: int| 0 <= i < s.drop_last().len() && i != m implies s.drop_last()[i]
            != e by {
            assert(s[i] == s.drop_last()[i]);
        }
        assert(s[s.len() - 1] == s.last());
        lemma_occurrences_single(s.drop_last(), e, m);
    }
}

/// Whether a text holds no space.
pub open spec fn spaceless(t: Seq<char>) -> bool {
    forall|i: int| 0 <= i < t.len() ==> t[i] != ' '
}

proof fn lemma_split_last_space(x1: Seq<char>, y1: Seq<char>, x2: Seq<char>, y2: Seq<char>)
    requires
        x1 + seq![' '] + y1 == x2 + seq![' '] + y2,
        spaceless(y1),
        spaceless(y2),
    ensures
        y1 == y2,
        x1 == x2,
{
    let c1 = x1 + seq![' '] + y1;
    let c2 = x2 + seq![' '] + y2;
    if y1.len() < y2.len() {
        let i = c1.len() - y1.len() - 1;
        assert(c1[i] == ' ');
        assert(c2[i] == y2[i - x2.len() - 1]);
    } else if y2.len() < y1.len() {
        let i = c2.len() - y2.len() - 1;
        assert(c2[i] == ' ');
        assert(c1[i] == y1[i - x1.len() - 1]);
    }
    assert(y1 =~= c1.subrange(c1.len() - y1.len(), c1.len() as int));
    assert(y2 =~= c2.subrange(c2.len() - y2.len(), c2.len() as int));
    assert(x1 =~= c1.subrange(0, x1.len() as int));
    assert(x2 =~= c2.subrange(0, x2.len() as int));
}

proof fn lemma_entry_injective(
    d1: Seq<char>,
    s1: ServiceInfo,
    id1: Seq<char>,
    d2: Seq<char>,
    s2: ServiceInfo,
    id2: Seq<char>,
)
    requires
        entry_for(d1, s1, id1) == entry_for(d2, s2, id2),
        spaceless(id1),
        spaceless(id2),
        d1 == domain_of(id1),
        d2 == domain_of(id2),
    ensures
        id1 == id2,
        s1.name@ == s2.name@,
{
    let p = POST_SERVICE_TOPIC@ + seq![' '];
    let x1 = p + d1 + seq![' '] + s1.name@;
    let x2 = p + d2 + seq![' '] + s2.name@;
    assert(entry_for(d1, s1, id1).1 =~= x1 + seq![' '] + id1);
    assert(entry_for(d2, s2, id2).1 =~= x2 + seq![' '] + id2);
    lemma_split_last_space(x1, id1, x2, id2);
    let q = p + d1 + seq![' '];
    assert(x1 =~= q + s1.name@);
    assert(x2 =~= q + s2.name@);
    assert(s1.name@ =~= x1.subrange(q.len() as int, x1.len() as int));
    assert(s2.name@ =~= x2.subrange(q.len() as int, x2.len() as int));
}

/// Where entity ids are distinct and hold no space, and the services listed
/// for a domain have distinct names, each pair of a supported entity and a
/// service listed for its domain is advertised by exactly one entry, with
/// description `"<service description> <entity id>"` and command
/// `"<post-service topic> <domain> <service> <entity id>"`.
pub proof fn lemma_listed_service_advertised_once(
    catalog: Seq<DomainServices>,
    ids: Seq<String>,
    j: int,
    m: int,
)
    requires
        0 <= j < ids.len(),
        forall|a: int, b: int| 0 <= a < b < ids.len() ==> ids[a]@ != ids[b]@,
        forall|a: int| 0 <= a < ids.len() ==> spaceless(#[trigger] ids[a]@),
        forall|dom: Seq<char>, a: int, b: int|
            services_for(catalog, dom) is Some && 0 <= a < b < services_for(catalog, dom)->0.len()
                ==> #[trigger] services_for(catalog, dom)->0[a].name@ != #[trigger] services_for(
                catalog,
                dom,
            )->0[b].name@,
        supported(domain_of(ids[j]@)),
        services_for(catalog, domain_of(ids[j]@)) is Some,
        0 <= m < services_for(catalog, domain_of(ids[j]@))->0.len(),
    ensures
        occurrences(
            all_entries(catalog, ids),
            entry_for(
                domain_of(ids[j]@),
                services_for(catalog, domain_of(ids[j]@))->0[m],
                ids[j]@,
            ),
        ) == 1,
    decreases ids.len(),
{
    let id = ids[j]@;
    let d = domain_of(id);
    let svcs = services_for(catalog, d)->0;
    let e = entry_for(d, svcs[m], id);
    let front = ids.drop_last();
    let last = ids.last()@;
    assert(ids[ids.len() - 1]@ == last);
    lemma_occurrences_concat(all_entries(catalog, front), entries_of(catalog, last), e);
    if j < ids.len() - 1 {
        assert(front[j] == ids[j]);
        assert forall|a: int, b: int| 0 <= a < b < front.len() implies front[a]@ != front[b]@ by {
            assert(front[a] == ids[a] && front[b] == ids[b]);
        }
        assert forall|a: int| 0 <= a < front.len() implies spaceless(#[trigger] front[a]@) by {
            assert(front[a] == ids[a]);
        }
        lemma_listed_service_advertised_once(catalog, front, j, m);
        let tail = entries_of(catalog, last);
        if tail.contains(e) {
            let i = choose|i: int| 0 <= i < tail.len() && tail[i] == e;
            let ld = domain_of(last);
            let ls = services_for(catalog, ld)->0;
            assert(tail[i] == entry_for(ld, ls[i], last));
            lemma_entry_injective(d, svcs[m], id, ld, ls[i], last);
        }
        lemma_occurrences_absent(tail, e);
    } else {
        let head = all_entries(catalog, front);
        if head.contains(e) {
            let i = choose|i: int| 0 <= i < head.len() && head[i] == e;
            lemma_unsupported_excluded(catalog, front);
            assert(from_supported_entity(catalog, front, head[i]));
            let a = choose|a: int|
                0 <= a < front.len() && supported(domain_of(front[a]@)) && #[trigger] entries_of(
                    catalog,
                    front[a]@,
                ).contains(head[i]);
            assert(front[a] == ids[a]);
            let ad = domain_of(ids[a]@);
            let tail_a = entries_of(catalog, ids[a]@);
            let k = choose|k: int| 0 <= k < tail_a.len() && tail_a[k] == e;
            let asv = services_for(catalog, ad)->0;
            assert(tail_a[k] == entry_for(ad, asv[k], ids[a]@));
            lemma_entry_injective(d, svcs[m], id, ad, asv[k], ids[a]@);
        }
        lemma_occurrences_absent(head, e);
        let tail = entries_of(catalog, last);
        assert(tail[m] == e);
        assert forall|i: int| 0 <= i < tail.len() && i != m implies tail[i] != e by {
            assert(tail[i] == entry_for(d, svcs[i], id));
            if tail[i] == e {
                lemma_entry_injective(d, svcs[i], id, d, svcs[m], id);
                if i < m {
                    assert(svcs[i].name@ != svcs[m].name@);
                } else {
                    assert(svcs[m].name@ != svcs[i].name@);
                }
            }
        }
        lemma_occurrences_single(tail, e, m);
    }
}

} // verus!
