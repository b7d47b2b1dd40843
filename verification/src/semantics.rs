use vstd::prelude::*;

use crate::text::{lemma_index_of_contains, lemma_index_of_unique, str_eq, IntoText};

verus! {

/// Identifier of a concept.
#[derive(Debug, PartialEq, Eq, Hash)]
pub struct ConceptId(pub String);

impl View for ConceptId {
    type V = Seq<char>;

    open spec fn view(&self) -> Seq<char> {
        self.0@
    }
}

impl Clone for ConceptId {
    fn clone(&self) -> (r: Self)
        ensures
            r == *self,
    {
        ConceptId(self.0.clone())
    }
}

pub open spec fn id_views(v: Seq<ConceptId>) -> Seq<Seq<char>> {
    v.map_values(|c: ConceptId| c@)
}

impl ConceptId {
    pub fn new<S: IntoText>(id: S) -> (r: Self)
        ensures
            r@ == id.text_view(),
    {
        ConceptId(id.into_text())
    }

    /// Whether two identifiers are equal.
    pub fn same(&self, other: &ConceptId) -> (r: bool)
        ensures
            r == (self@ == other@),
    {
        str_eq(self.0.as_str(), other.0.as_str())
    }
}

/// Copies a list of concept identifiers.
pub fn clone_ids(v: &Vec<ConceptId>) -> (r: Vec<ConceptId>)
    ensures
        r@ == v@,
{
    let mut out: Vec<ConceptId> = Vec::new();
    let mut i: usize = 0;
    while i < v.len()
        invariant
            0 <= i <= v@.len(),
            out@ =~= v@.take(i as int),
        decreases v@.len() - i,
    {
        out.push(v[i].clone());
        i = i + 1;
    }
    assert(out@ =~= v@);
    out
}

/// The abstract content of a concept.
pub struct ConceptModel {
    pub id: Seq<char>,
    pub canonical_name: Seq<char>,
}

/// A meaning, independent of any language.
#[derive(Debug, PartialEq, Eq)]
pub struct Concept {
    pub id: ConceptId,
    pub canonical_name: String,
}

impl View for Concept {
    type V = ConceptModel;

    open spec fn view(&self) -> ConceptModel {
        ConceptModel { id: self.id@, canonical_name: self.canonical_name@ }
    }
}

impl Clone for Concept {
    fn clone(&self) -> (r: Self)
        ensures
            r == *self,
    {
        Concept { id: self.id.clone(), canonical_name: self.canonical_name.clone() }
    }
}

impl Concept {
    pub fn new<I: IntoText, N: IntoText>(id: I, name: N) -> (r: Self)
        ensures
            r@ == (ConceptModel { id: id.text_view(), canonical_name: name.text_view() }),
    {
        Concept { id: ConceptId::new(id), canonical_name: name.into_text() }
    }
}

/// The concepts a gloss resolves to, in mapping order (none for an unmapped gloss).
pub open spec fn resolved(m: MapperModel, gloss: Seq<char>) -> Seq<Seq<char>> {
    if m.glosses.contains_key(gloss) {
        m.glosses[gloss]
    } else {
        Seq::empty()
    }
}

/// The mapper with `concept` registered under its identifier (replacing an earlier
/// concept with that identifier, whose place in the order is kept).
pub open spec fn with_concept(m: MapperModel, concept: ConceptModel) -> MapperModel {
    MapperModel {
        glosses: m.glosses,
        concepts: m.concepts.insert(concept.id, concept),
        concept_order: if m.concept_order.contains(concept.id) {
            m.concept_order
        } else {
            m.concept_order.push(concept.id)
        },
    }
}

/// The mapper with `gloss` also resolving to `id`, after what it resolved to before.
pub open spec fn with_mapping(m: MapperModel, gloss: Seq<char>, id: Seq<char>) -> MapperModel {
    MapperModel {
        glosses: m.glosses.insert(gloss, resolved(m, gloss).push(id)),
        concepts: m.concepts,
        concept_order: m.concept_order,
    }
}

/// The mapper with nothing registered.
pub open spec fn empty_mapper() -> MapperModel {
    MapperModel {
        glosses: Map::empty(),
        concepts: Map::empty(),
        concept_order: Seq::empty(),
    }
}

/// The mapper after registering, for each gloss in turn, a concept identified and named
/// by the gloss, and mapping the gloss to it.
pub open spec fn registered(glosses: Seq<Seq<char>>) -> MapperModel
    decreases glosses.len(),
{
    if glosses.len() == 0 {
        empty_mapper()
    } else {
        let g = glosses.last();
        with_mapping(
            with_concept(registered(glosses.drop_last()), ConceptModel { id: g, canonical_name: g }),
            g,
            g,
        )
    }
}

/// The concepts an English gloss stands for.
#[derive(Debug)]
struct GlossEntry {
    gloss: String,
    concepts: Vec<ConceptId>,
}

fn copy_entry(e: &GlossEntry) -> (r: GlossEntry)
    ensures
        r.gloss == e.gloss,
        r.concepts@ == e.concepts@,
{
    GlossEntry { gloss: e.gloss.clone(), concepts: clone_ids(&e.concepts) }
}

/// The abstract content of a semantic mapper.
pub struct MapperModel {
    /// English gloss to the identifiers it was mapped to, in mapping order.
    pub glosses: Map<Seq<char>, Seq<Seq<char>>>,
    /// Identifier to registered concept.
    pub concepts: Map<Seq<char>, ConceptModel>,
    /// Identifiers of the registered concepts, in order of first registration.
    pub concept_order: Seq<Seq<char>>,
}

/// Links English glosses to concepts (polysemy and synonymy), and registers concepts.
#[derive(Debug)]
pub struct SemanticMapper {
    english_to_concepts: Vec<GlossEntry>,
    concepts: Vec<Concept>,
}

spec fn gloss_keys(e: Seq<GlossEntry>) -> Seq<Seq<char>> {
    e.map_values(|g: GlossEntry| g.gloss@)
}

spec fn concept_keys(c: Seq<Concept>) -> Seq<Seq<char>> {
    c.map_values(|k: Concept| k.id@)
}

spec fn gloss_map(e: Seq<GlossEntry>) -> Map<Seq<char>, Seq<Seq<char>>> {
    Map::new(
        |g: Seq<char>| gloss_keys(e).contains(g),
        |g: Seq<char>| id_views(e[gloss_keys(e).index_of(g)].concepts@),
    )
}

spec fn concept_map(c: Seq<Concept>) -> Map<Seq<char>, ConceptModel> {
    Map::new(
        |k: Seq<char>| concept_keys(c).contains(k),
        |k: Seq<char>| c[concept_keys(c).index_of(k)]@,
    )
}

impl View for SemanticMapper {
    type V = MapperModel;

    closed spec fn view(&self) -> MapperModel {
        MapperModel {
            glosses: gloss_map(self.english_to_concepts@),
            concepts: concept_map(self.concepts@),
            concept_order: concept_keys(self.concepts@),
        }
    }
}

impl SemanticMapper {
    #[verifier::type_invariant]
    spec fn keys_unique(&self) -> bool {
        &&& gloss_keys(self.english_to_concepts@).no_duplicates()
        &&& concept_keys(self.concepts@).no_duplicates()
    }

    /// A mapper with no glosses and no concepts.
    pub fn new() -> (r: Self)
        ensures
            r@ == empty_mapper(),
            r@.glosses == Map::<Seq<char>, Seq<Seq<char>>>::empty(),
            r@.concepts == Map::<Seq<char>, ConceptModel>::empty(),
            r@.concept_order == Seq::<Seq<char>>::empty(),
    {
        let r = SemanticMapper { english_to_concepts: Vec::new(), concepts: Vec::new() };
        assert(gloss_keys(r.english_to_concepts@) =~= Seq::empty());
        assert(concept_keys(r.concepts@) =~= Seq::empty());
        assert(r@.glosses =~= Map::empty());
        assert(r@.concepts =~= Map::empty());
        r
    }

    /// Position of the concept registered under `id`.
    fn concept_position(&self, id: &ConceptId) -> (r: Option<usize>)
        ensures
            match r {
                Some(i) => i < self.concepts@.len() && concept_keys(self.concepts@)[i as int]
                    == id@,
                None => !concept_keys(self.concepts@).contains(id@),
            },
    {
        let ghost keys = concept_keys(self.concepts@);
        let mut i: usize = 0;
        while i < self.concepts.len()
            invariant
                0 <= i <= self.concepts@.len(),
                keys == concept_keys(self.concepts@),
                forall|k: int| 0 <= k < i ==> #[trigger] keys[k] != id@,
            decreases self.concepts@.len() - i,
        {
            if self.concepts[i].id.same(id) {
                return Some(i);
            }
            i = i + 1;
        }
        None
    }

    /// Position of the entry for `gloss`.
    fn gloss_position(&self, gloss: &str) -> (r: Option<usize>)
        ensures
            match r {
                Some(i) => i < self.english_to_concepts@.len() && gloss_keys(
                    self.english_to_concepts@,
                )[i as int] == gloss@,
                None => !gloss_keys(self.english_to_concepts@).contains(gloss@),
            },
    {
        let ghost keys = gloss_keys(self.english_to_concepts@);
        let mut i: usize = 0;
        while i < self.english_to_concepts.len()
            invariant
                0 <= i <= self.english_to_concepts@.len(),
                keys == gloss_keys(self.english_to_concepts@),
                forall|k: int| 0 <= k < i ==> #[trigger] keys[k] != gloss@,
            decreases self.english_to_concepts@.len() - i,
        {
            if str_eq(self.english_to_concepts[i].gloss.as_str(), gloss) {
                return Some(i);
            }
            i = i + 1;
        }
        None
    }

    /// Registers `concept`, replacing any concept with the same identifier.
    pub fn add_concept(&mut self, concept: Concept)
        ensures
            final(self)@ == with_concept(old(self)@, concept@),
    {
        proof {
            use_type_invariant(&*self);
        }
        let ghost old_c = self.concepts@;
        let ghost keys = concept_keys(old_c);
        let ghost cv = concept@;
        let ghost id = concept.id@;
        let position = self.concept_position(&concept.id);
        let mut concepts: Vec<Concept> = Vec::new();
        std::mem::swap(&mut concepts, &mut self.concepts);
        match position {
            Some(i) => {
                concepts.set(i, concept);
                proof {
                    let nk = concept_keys(concepts@);
                    assert(nk =~= keys);
                    lemma_index_of_unique(keys, i as int);
                    assert(concept_map(concepts@) =~= concept_map(old_c).insert(id, cv)) by {
                        assert forall|k: Seq<char>| nk.contains(k) implies #[trigger] concepts@[nk.index_of(k)]@
                            == (if k == id { cv } else { old_c[keys.index_of(k)]@ }) by {
                            lemma_index_of_contains(keys, k);
                            if k != id {
                                assert(keys.index_of(k) != i);
                            }
                        }
                    }
                }
            },
            None => {
                concepts.push(concept);
                proof {
                    let nk = concept_keys(concepts@);
                    assert(nk =~= keys.push(id));
                    assert(nk.no_duplicates()) by {
                        assert forall|a: int, b: int|
                            0 <= a < nk.len() && 0 <= b < nk.len() && a != b implies nk[a] != nk[b] by {
                            if a < keys.len() && b < keys.len() {
                            } else if a == keys.len() {
                                assert(keys[b] != id);
                            } else {
                                assert(keys[a] != id);
                            }
                        }
                    }
                    assert(concept_map(concepts@) =~= concept_map(old_c).insert(id, cv)) by {
                        assert forall|k: Seq<char>| nk.contains(k) implies #[trigger] concepts@[nk.index_of(k)]@
                            == (if k == id { cv } else { old_c[keys.index_of(k)]@ }) by {
                            lemma_index_of_contains(nk, k);
                            if k == id {
                                lemma_index_of_unique(nk, keys.len() as int);
                            } else {
                                lemma_index_of_contains(keys, k);
                                lemma_index_of_unique(nk, keys.index_of(k));
                            }
                        }
                        assert forall|k: Seq<char>| keys.contains(k) || k == id implies nk.contains(k) by {
                            if k == id {
                                assert(nk[keys.len() as int] == id);
                            } else {
                                let j = choose|j: int| 0 <= j < keys.len() && keys[j] == k;
                                assert(nk[j] == k);
                            }
                        }
                    }
                }
            },
        }
        self.concepts = concepts;
    }

    /// For each gloss in turn that resolves to nothing yet, registers a concept
    /// identified and named by the gloss and maps the gloss to it.
    pub fn add_missing_glosses(&mut self, glosses: &Vec<String>)
        ensures
            final(self)@ == with_gloss_concepts(old(self)@, crate::text::views(glosses@)),
    {
        let ghost start = self@;
        let ghost gs = crate::text::views(glosses@);
        let mut i: usize = 0;
        while i < glosses.len()
            invariant
                0 <= i <= glosses@.len(),
                gs == crate::text::views(glosses@),
                self@ == with_gloss_concepts(start, gs.take(i as int)),
            decreases glosses@.len() - i,
        {
            let gloss = glosses[i].as_str();
            proof {
                assert(gs.take(i as int + 1).drop_last() =~= gs.take(i as int));
                assert(gs.take(i as int + 1).last() == gloss@);
            }
            let ids = self.resolve_gloss(gloss);
            if ids.len() == 0 {
                let concept = Concept::new(gloss, gloss);
                let id = concept.id.clone();
                self.add_concept(concept);
                self.map_gloss(gloss, id);
            }
            i = i + 1;
        }
        assert(gs.take(glosses@.len() as int) =~= gs);
    }

    /// Records that `gloss` stands for `concept_id` (after any earlier mappings of it).
    pub fn map_gloss<S: IntoText>(&mut self, gloss: S, concept_id: ConceptId)
        ensures
            final(self)@ == with_mapping(old(self)@, gloss.text_view(), concept_id@),
    {
        proof {
            use_type_invariant(&*self);
        }
        let gloss = gloss.into_text();
        let ghost g = gloss@;
        let ghost cid = concept_id@;
        let ghost old_e = self.english_to_concepts@;
        let ghost keys = gloss_keys(old_e);
        let position = self.gloss_position(gloss.as_str());
        let mut entries: Vec<GlossEntry> = Vec::new();
        std::mem::swap(&mut entries, &mut self.english_to_concepts);
        match position {
            Some(i) => {
                let mut entry = copy_entry(&entries[i]);
                let ghost before_ids = entry.concepts@;
                entry.concepts.push(concept_id);
                let ghost new_ids = entry.concepts@;
                entries.set(i, entry);
                proof {
                    let nk = gloss_keys(entries@);
                    assert(nk =~= keys);
                    lemma_index_of_unique(keys, i as int);
                    assert(id_views(new_ids) =~= id_views(before_ids).push(cid));
                    assert(gloss_map(entries@) =~= gloss_map(old_e).insert(
                        g,
                        id_views(before_ids).push(cid),
                    )) by {
                        assert forall|k: Seq<char>| nk.contains(k) implies #[trigger] id_views(
                            entries@[nk.index_of(k)].concepts@,
                        ) == (if k == g {
                            id_views(before_ids).push(cid)
                        } else {
                            id_views(old_e[keys.index_of(k)].concepts@)
                        }) by {
                            lemma_index_of_contains(keys, k);
                            if k != g {
                                assert(keys.index_of(k) != i);
                            }
                        }
                    }
                }
            },
            None => {
                let mut ids: Vec<ConceptId> = Vec::new();
                ids.push(concept_id);
                let entry = GlossEntry { gloss, concepts: ids };
                entries.push(entry);
                proof {
                    let nk = gloss_keys(entries@);
                    let single = Seq::<Seq<char>>::empty().push(cid);
                    assert(nk =~= keys.push(g));
                    assert(nk.no_duplicates()) by {
                        assert forall|a: int, b: int|
                            0 <= a < nk.len() && 0 <= b < nk.len() && a != b implies nk[a] != nk[b] by {
                            if a < keys.len() && b < keys.len() {
                            } else if a == keys.len() {
                                assert(keys[b] != g);
                            } else {
                                assert(keys[a] != g);
                            }
                        }
                    }
                    assert(id_views(entries@[keys.len() as int].concepts@) =~= single);
                    assert(gloss_map(entries@) =~= gloss_map(old_e).insert(g, single)) by {
                        assert forall|k: Seq<char>| nk.contains(k) implies #[trigger] id_views(
                            entries@[nk.index_of(k)].concepts@,
                        ) == (if k == g {
                            single
                        } else {
                            id_views(old_e[keys.index_of(k)].concepts@)
                        }) by {
                            lemma_index_of_contains(nk, k);
                            if k == g {
                                lemma_index_of_unique(nk, keys.len() as int);
                            } else {
                                lemma_index_of_contains(keys, k);
                                lemma_index_of_unique(nk, keys.index_of(k));
                            }
                        }
                        assert forall|k: Seq<char>| keys.contains(k) || k == g implies nk.contains(k) by {
                            if k == g {
                                assert(nk[keys.len() as int] == g);
                            } else {
                                let j = choose|j: int| 0 <= j < keys.len() && keys[j] == k;
                                assert(nk[j] == k);
                            }
                        }
                    }
                }
            },
        }
        self.english_to_concepts = entries;
    }

    /// The identifiers `gloss` was mapped to, in mapping order (empty when unmapped).
    pub fn resolve_gloss(&self, gloss: &str) -> (r: Vec<ConceptId>)
        ensures
            id_views(r@) == resolved(self@, gloss@),
    {
        proof {
            use_type_invariant(self);
        }
        match self.gloss_position(gloss) {
            Some(i) => {
                proof {
                    lemma_index_of_unique(gloss_keys(self.english_to_concepts@), i as int);
                }
                clone_ids(&self.english_to_concepts[i].concepts)
            },
            None => {
                assert(id_views(Seq::<ConceptId>::empty()) =~= Seq::empty());
                Vec::new()
            },
        }
    }

    /// The registered concept with identifier `id`.
    pub fn get_concept(&self, id: &ConceptId) -> (r: Option<&Concept>)
        ensures
            match r {
                Some(c) => self@.concepts.contains_key(id@) && self@.concepts[id@] == c@,
                None => !self@.concepts.contains_key(id@),
            },
    {
        proof {
            use_type_invariant(self);
        }
        match self.concept_position(id) {
            Some(i) => {
                proof {
                    lemma_index_of_unique(concept_keys(self.concepts@), i as int);
                }
                Some(&self.concepts[i])
            },
            None => None,
        }
    }

    /// The identifiers of the registered concepts, in registration order; they are
    /// pairwise distinct and are exactly the registered identifiers.
    pub fn concept_ids(&self) -> (r: Vec<ConceptId>)
        ensures
            id_views(r@) == self@.concept_order,
            self@.concept_order.no_duplicates(),
            forall|k: Seq<char>| #[trigger]
                self@.concepts.contains_key(k) <==> self@.concept_order.contains(k),
    {
        proof {
            use_type_invariant(self);
        }
        let mut out: Vec<ConceptId> = Vec::new();
        let mut i: usize = 0;
        while i < self.concepts.len()
            invariant
                0 <= i <= self.concepts@.len(),
                id_views(out@) =~= concept_keys(self.concepts@).take(i as int),
            decreases self.concepts@.len() - i,
        {
            let id = self.concepts[i].id.clone();
            assert(id_views(out@.push(id)) =~= id_views(out@).push(id@));
            out.push(id);
            i = i + 1;
        }
        assert(concept_keys(self.concepts@).take(self.concepts@.len() as int) =~= concept_keys(
            self.concepts@,
        ));
        out
    }
}

impl Clone for SemanticMapper {
    fn clone(&self) -> (r: Self)
        ensures
            r@ == self@,
    {
        proof {
            use_type_invariant(self);
        }
        let mut entries: Vec<GlossEntry> = Vec::new();
        let mut i: usize = 0;
        while i < self.english_to_concepts.len()
            invariant
                0 <= i <= self.english_to_concepts@.len(),
                entries@.len() == i,
                forall|k: int| 0 <= k < i ==> #[trigger] entries@[k].gloss == self.english_to_concepts@[k].gloss
                    && entries@[k].concepts@ == self.english_to_concepts@[k].concepts@,
            decreases self.english_to_concepts@.len() - i,
        {
            entries.push(copy_entry(&self.english_to_concepts[i]));
            i = i + 1;
        }
        let mut concepts: Vec<Concept> = Vec::new();
        let mut j: usize = 0;
        while j < self.concepts.len()
            invariant
                0 <= j <= self.concepts@.len(),
                concepts@ =~= self.concepts@.take(j as int),
            decreases self.concepts@.len() - j,
        {
            concepts.push(self.concepts[j].clone());
            j = j + 1;
        }
        assert(concepts@ =~= self.concepts@);
        assert(gloss_keys(entries@) =~= gloss_keys(self.english_to_concepts@));
        let r = SemanticMapper { english_to_concepts: entries, concepts };
        assert(r@.glosses =~= self@.glosses);
        r
    }
}

/// Registering a concept makes it retrievable under its identifier, leaves every other
/// identifier and every gloss as it was, and lists its identifier once among the
/// registered ones.
pub proof fn law_registered_concept_is_found(m: MapperModel, concept: ConceptModel, other: Seq<char>)
    ensures
        with_concept(m, concept).concepts.contains_key(concept.id),
        with_concept(m, concept).concepts[concept.id] == concept,
        other != concept.id ==> with_concept(m, concept).concepts.contains_key(other)
            == m.concepts.contains_key(other),
        other != concept.id && m.concepts.contains_key(other) ==> with_concept(
            m,
            concept,
        ).concepts[other] == m.concepts[other],
        resolved(with_concept(m, concept), other) == resolved(m, other),
        with_concept(m, concept).concept_order.contains(concept.id),
        m.concept_order.no_duplicates() ==> with_concept(m, concept).concept_order.no_duplicates(),
{
    let order = m.concept_order;
    if !order.contains(concept.id) {
        assert(order.push(concept.id)[order.len() as int] == concept.id);
        if order.no_duplicates() {
            assert forall|i: int, j: int|
                0 <= i < order.len() + 1 && 0 <= j < order.len() + 1 && i != j implies order.push(
                concept.id,
            )[i] != order.push(concept.id)[j] by {
                if i < order.len() && j == order.len() {
                    assert(order.contains(order[i]));
                }
                if j < order.len() && i == order.len() {
                    assert(order.contains(order[j]));
                }
            }
        }
    }
}

/// Mapping a gloss to a concept makes that concept the last one the gloss resolves to,
/// after the ones it resolved to before, and leaves other glosses and the concepts as
/// they were.
pub proof fn law_mapped_gloss_resolves(m: MapperModel, gloss: Seq<char>, id: Seq<char>, other: Seq<char>)
    ensures
        resolved(with_mapping(m, gloss, id), gloss) == resolved(m, gloss).push(id),
        other != gloss ==> resolved(with_mapping(m, gloss, id), other) == resolved(m, other),
        with_mapping(m, gloss, id).concepts == m.concepts,
        with_mapping(m, gloss, id).concept_order == m.concept_order,
{
}

/// The mapper with a concept for `gloss`, identified and named by it, registered and
/// mapped from it, unless the gloss already resolves to something.
pub open spec fn with_gloss_concept(m: MapperModel, gloss: Seq<char>) -> MapperModel {
    if resolved(m, gloss).len() == 0 {
        with_mapping(with_concept(m, ConceptModel { id: gloss, canonical_name: gloss }), gloss, gloss)
    } else {
        m
    }
}

/// The mapper after `with_gloss_concept` for each gloss in turn.
pub open spec fn with_gloss_concepts(m: MapperModel, glosses: Seq<Seq<char>>) -> MapperModel
    decreases glosses.len(),
{
    if glosses.len() == 0 {
        m
    } else {
        with_gloss_concept(with_gloss_concepts(m, glosses.drop_last()), glosses.last())
    }
}

/// After adding the missing glosses, every one of them resolves to at least one concept,
/// and a gloss that already resolved keeps resolving to the same identifiers.
pub proof fn law_missing_glosses_resolve(m: MapperModel, glosses: Seq<Seq<char>>, other: Seq<char>)
    ensures
        forall|i: int|
            0 <= i < glosses.len() ==> #[trigger] resolved(with_gloss_concepts(m, glosses), glosses[i]).len()
                > 0,
        resolved(m, other).len() > 0 ==> resolved(with_gloss_concepts(m, glosses), other) == resolved(
            m,
            other,
        ),
    decreases glosses.len(),
{
    if glosses.len() > 0 {
        let init = glosses.drop_last();
        law_missing_glosses_resolve(m, init, other);
        let before = with_gloss_concepts(m, init);
        let g = glosses.last();
        assert forall|i: int| 0 <= i < glosses.len() implies #[trigger] resolved(
            with_gloss_concepts(m, glosses),
            glosses[i],
        ).len() > 0 by {
            if i < glosses.len() - 1 {
                assert(init[i] == glosses[i]);
                assert(resolved(before, init[i]).len() > 0);
            }
        }
    }
}

/// One call on a mapper: registering a concept, or mapping a gloss to an identifier.
pub enum MapperCall {
    AddConcept(ConceptModel),
    MapGloss(Seq<char>, Seq<char>),
}

/// The mapper after `calls`, made in order, starting from `m`.
pub open spec fn after_calls(m: MapperModel, calls: Seq<MapperCall>) -> MapperModel
    decreases calls.len(),
{
    if calls.len() == 0 {
        m
    } else {
        let before = after_calls(m, calls.drop_last());
        match calls.last() {
            MapperCall::AddConcept(c) => with_concept(before, c),
            MapperCall::MapGloss(g, id) => with_mapping(before, g, id),
        }
    }
}

/// The identifiers that `calls` mapped `gloss` to, in call order.
pub open spec fn ids_mapped(calls: Seq<MapperCall>, gloss: Seq<char>) -> Seq<Seq<char>>
    decreases calls.len(),
{
    if calls.len() == 0 {
        Seq::empty()
    } else {
        let earlier = ids_mapped(calls.drop_last(), gloss);
        match calls.last() {
            MapperCall::MapGloss(g, id) => if g == gloss {
                earlier.push(id)
            } else {
                earlier
            },
            MapperCall::AddConcept(_) => earlier,
        }
    }
}

/// After any history of calls on a new mapper, a gloss resolves to exactly the
/// identifiers it was mapped to, in the order of the calls (to nothing if it was never
/// mapped); registering concepts does not change what a gloss resolves to.
pub proof fn law_resolve_gives_mapping_history(calls: Seq<MapperCall>, gloss: Seq<char>)
    ensures
        resolved(after_calls(empty_mapper(), calls), gloss) == ids_mapped(calls, gloss),
    decreases calls.len(),
{
    if calls.len() == 0 {
        assert(!empty_mapper().glosses.contains_key(gloss));
    } else {
        law_resolve_gives_mapping_history(calls.drop_last(), gloss);
    }
}

} // verus!
