//! Resolving an identifier to a stored alias, over the default and the
//! shared storage root.

use vstd::prelude::*;
use crate::alias::StorageRoot;
use crate::error::AliasError;
use crate::format::texts;
use crate::order::{ascending, lemma_text_lt_total, text_lt};
use crate::search::{collect_matches, fragments, is_match, words_of, Directory};

verus! {

/// A stored alias that an identifier may mean.
#[derive(Debug)]
pub struct Candidate {
    pub name: String,
    pub root: StorageRoot,
}

/// What a candidate holds.
pub struct CandidateView {
    pub name: Seq<char>,
    pub root: StorageRoot,
}

impl View for Candidate {
    type V = CandidateView;

    open spec fn view(&self) -> CandidateView {
        CandidateView { name: self.name@, root: self.root }
    }
}

impl Clone for Candidate {
    fn clone(&self) -> (r: Candidate)
        ensures
            r@ == self@,
    {
        Candidate { name: self.name.clone(), root: self.root }
    }
}

/// The views of a list of candidates.
pub open spec fn candidate_views(list: Seq<Candidate>) -> Seq<CandidateView> {
    list.map_values(|c: Candidate| c@)
}

/// What the two storage roots hold. The shared root is there only when it
/// is configured.
pub struct StoreView {
    pub main: Map<Seq<char>, Seq<char>>,
    pub shared: Option<Map<Seq<char>, Seq<char>>>,
}

/// The directory of a root, if the root is there.
pub open spec fn directory_of(store: StoreView, root: StorageRoot) -> Option<
    Map<Seq<char>, Seq<char>>,
> {
    match root {
        StorageRoot::Default => Some(store.main),
        StorageRoot::Shared => store.shared,
    }
}

/// Whether the store holds a file for the candidate.
pub open spec fn is_stored(store: StoreView, c: CandidateView) -> bool {
    directory_of(store, c.root) is Some && directory_of(store, c.root)->Some_0.contains_key(c.name)
}

/// Whether the candidate is stored and its name holds every fragment.
pub open spec fn is_candidate(store: StoreView, parts: Seq<Seq<char>>, c: CandidateView) -> bool {
    is_match(c.name, parts, directory_of(store, c.root))
}

/// Whether `a` stands before `b` in a list of candidates: by name, and
/// under one name the default root before the shared one.
pub open spec fn candidate_lt(a: CandidateView, b: CandidateView) -> bool {
    text_lt(a.name, b.name) || (a.name == b.name && a.root == StorageRoot::Default && b.root
        == StorageRoot::Shared)
}

/// Whether each candidate of the list stands before all that follow it.
pub open spec fn in_order(list: Seq<CandidateView>) -> bool {
    forall|i: int, j: int|
        0 <= i < j < list.len() ==> candidate_lt(#[trigger] list[i], #[trigger] list[j])
}

/// Whether `list` is the list of the candidates for the fragments: it
/// holds each of them, nothing else, and is in order.
pub open spec fn lists_candidates(
    store: StoreView,
    parts: Seq<Seq<char>>,
    list: Seq<CandidateView>,
) -> bool {
    &&& in_order(list)
    &&& forall|c: CandidateView| list.contains(c) <==> is_candidate(store, parts, c)
}

/// The list of the candidates for the fragments.
pub open spec fn candidates(store: StoreView, parts: Seq<Seq<char>>) -> Seq<CandidateView> {
    choose|list: Seq<CandidateView>| lists_candidates(store, parts, list)
}

/// No candidate stands before itself, and of two candidates at most one
/// stands before the other.
pub proof fn lemma_candidate_lt_strict(a: CandidateView, b: CandidateView)
    ensures
        !candidate_lt(a, a),
        !(candidate_lt(a, b) && candidate_lt(b, a)),
{
    lemma_text_lt_total(a.name, a.name);
    lemma_text_lt_total(a.name, b.name);
}

/// Two lists in order that hold the same candidates are the same list.
pub proof fn lemma_order_fixes_list(a: Seq<CandidateView>, b: Seq<CandidateView>)
    requires
        in_order(a),
        in_order(b),
        forall|c: CandidateView| a.contains(c) <==> b.contains(c),
    ensures
        a == b,
    decreases a.len(),
{
    if a.len() == 0 {
        if b.len() > 0 {
            assert(b.contains(b[0]));
        }
        assert(a =~= b);
    } else {
        assert(a.contains(a[0]));
        let k = choose|k: int| 0 <= k < b.len() && b[k] == a[0];
        assert(b.contains(b[0]));
        let j = choose|j: int| 0 <= j < a.len() && a[j] == b[0];
        lemma_candidate_lt_strict(a[0], b[0]);
        if k > 0 {
            assert(candidate_lt(b[0], b[k]));
            if j > 0 {
                assert(candidate_lt(a[0], a[j]));
            }
        }
        assert(a[0] == b[0]);
        let ra = a.drop_first();
        let rb = b.drop_first();
        assert(in_order(ra)) by {
            assert forall|i: int, j: int| 0 <= i < j < ra.len() implies candidate_lt(
                #[trigger] ra[i],
                #[trigger] ra[j],
            ) by {
                assert(ra[i] == a[i + 1] && ra[j] == a[j + 1]);
            }
        }
        assert(in_order(rb)) by {
            assert forall|i: int, j: int| 0 <= i < j < rb.len() implies candidate_lt(
                #[trigger] rb[i],
                #[trigger] rb[j],
            ) by {
                assert(rb[i] == b[i + 1] && rb[j] == b[j + 1]);
            }
        }
        assert forall|c: CandidateView| ra.contains(c) <==> rb.contains(c) by {
            lemma_candidate_lt_strict(c, c);
            if ra.contains(c) {
                let i = choose|i: int| 0 <= i < ra.len() && ra[i] == c;
                assert(a[i + 1] == c);
                assert(candidate_lt(a[0], a[i + 1]));
                assert(a.contains(c));
                let m = choose|m: int| 0 <= m < b.len() && b[m] == c;
                assert(m > 0);
                assert(rb[m - 1] == c);
            }
            if rb.contains(c) {
                let i = choose|i: int| 0 <= i < rb.len() && rb[i] == c;
                assert(b[i + 1] == c);
                assert(candidate_lt(b[0], b[i + 1]));
                assert(b.contains(c));
                let m = choose|m: int| 0 <= m < a.len() && a[m] == c;
                assert(m > 0);
                assert(ra[m - 1] == c);
            }
        }
        lemma_order_fixes_list(ra, rb);
        assert(a =~= seq![a[0]] + ra);
        assert(b =~= seq![b[0]] + rb);
    }
}

/// A list that lists the candidates is the list of the candidates.
pub proof fn lemma_candidates_are(store: StoreView, parts: Seq<Seq<char>>, list: Seq<CandidateView>)
    requires
        lists_candidates(store, parts, list),
    ensures
        candidates(store, parts) == list,
{
    lemma_order_fixes_list(candidates(store, parts), list);
}

/// The text of the candidate's file.
pub open spec fn contents_of(store: StoreView, c: CandidateView) -> Seq<char> {
    directory_of(store, c.root)->Some_0[c.name]
}

/// The store with `contents` in the candidate's file. A root that is not
/// there takes no file.
pub open spec fn with_file(store: StoreView, c: CandidateView, contents: Seq<char>) -> StoreView {
    match c.root {
        StorageRoot::Default => StoreView { main: store.main.insert(c.name, contents), ..store },
        StorageRoot::Shared => match store.shared {
            Some(d) => StoreView { shared: Some(d.insert(c.name, contents)), ..store },
            None => store,
        },
    }
}

/// The store without the candidate's file.
pub open spec fn without_file(store: StoreView, c: CandidateView) -> StoreView {
    match c.root {
        StorageRoot::Default => StoreView { main: store.main.remove(c.name), ..store },
        StorageRoot::Shared => match store.shared {
            Some(d) => StoreView { shared: Some(d.remove(c.name)), ..store },
            None => store,
        },
    }
}

/// What an identifier resolves to. A file of exactly that name wins, in
/// the default root before the shared one. Failing that, the identifier's
/// words are fragments, and the candidates for them are the result; when
/// there is none, nothing is found.
pub open spec fn resolution(store: StoreView, identifier: Seq<char>) -> Result<
    Seq<CandidateView>,
    AliasError,
> {
    if store.main.contains_key(identifier) {
        Ok(seq![CandidateView { name: identifier, root: StorageRoot::Default }])
    } else if store.shared is Some && store.shared->Some_0.contains_key(identifier) {
        Ok(seq![CandidateView { name: identifier, root: StorageRoot::Shared }])
    } else if candidates(store, words_of(identifier)).len() == 0 {
        Err(AliasError::NotFound)
    } else {
        Ok(candidates(store, words_of(identifier)))
    }
}

/// The candidate that is meant. A single candidate is meant without a
/// question. Among several, it is the one selected; with nothing
/// selected, none is meant.
pub open spec fn picked(list: Seq<CandidateView>, selection: Option<usize>) -> Option<
    CandidateView,
> {
    if list.len() == 1 {
        Some(list[0])
    } else {
        match selection {
            Some(i) => if i < list.len() {
                Some(list[i as int])
            } else {
                None
            },
            None => None,
        }
    }
}

/// How a candidate is shown in a selection: by its name, marked when it
/// lies in the shared root.
pub open spec fn label_of(c: CandidateView) -> Seq<char> {
    match c.root {
        StorageRoot::Default => c.name,
        StorageRoot::Shared => c.name + " (shared)"@,
    }
}

/// The candidate that is meant among `list`, given what the user selected
/// if a selection was offered.
pub fn pick(list: &Vec<Candidate>, selection: Option<usize>) -> (r: Option<Candidate>)
    ensures
        match picked(candidate_views(list@), selection) {
            Some(c) => r is Some && r->Some_0@ == c,
            None => r is None,
        },
{
    if list.len() == 1 {
        assert(candidate_views(list@)[0] == list@[0]@);
        return Some(list[0].clone());
    }
    match selection {
        Some(i) => if i < list.len() {
            assert(candidate_views(list@)[i as int] == list@[i as int]@);
            Some(list[i].clone())
        } else {
            None
        },
        None => None,
    }
}

/// The texts that a selection among `list` shows, in the list's order.
pub fn labels(list: &Vec<Candidate>) -> (r: Vec<String>)
    ensures
        texts(r@) == candidate_views(list@).map_values(|c: CandidateView| label_of(c)),
{
    let mut r: Vec<String> = Vec::new();
    let mut i: usize = 0;
    while i < list.len()
        invariant
            i <= list@.len(),
            r@.len() == i,
            forall|k: int| 0 <= k < i ==> (#[trigger] r@[k])@ == label_of(list@[k]@),
        decreases list@.len() - i,
    {
        let mut label = list[i].name.clone();
        match list[i].root {
            StorageRoot::Default => {},
            StorageRoot::Shared => {
                label.append(" (shared)");
            },
        }
        r.push(label);
        i += 1;
    }
    assert(texts(r@) =~= candidate_views(list@).map_values(|c: CandidateView| label_of(c)));
    r
}

/// The alias files of the default root and, if it is configured, of the
/// shared root.
#[derive(Debug)]
pub struct Store {
    main: Directory,
    shared: Option<Directory>,
}

impl View for Store {
    type V = StoreView;

    closed spec fn view(&self) -> StoreView {
        StoreView {
            main: self.main@,
            shared: match self.shared {
                Some(d) => Some(d@),
                None => None,
            },
        }
    }
}

impl Store {
    /// A store of the two directories given.
    pub fn new(main: Directory, shared: Option<Directory>) -> (r: Store)
        ensures
            r@.main == main@,
            match shared {
                Some(d) => r@.shared == Some(d@),
                None => r@.shared is None,
            },
    {
        Store { main, shared }
    }

    /// The directory of a root, if the root is there.
    pub fn directory(&self, root: StorageRoot) -> (r: Option<&Directory>)
        ensures
            match directory_of(self@, root) {
                Some(d) => r is Some && r->Some_0@ == d,
                None => r is None,
            },
    {
        match root {
            StorageRoot::Default => Some(&self.main),
            StorageRoot::Shared => self.shared.as_ref(),
        }
    }

    /// Whether the root is there and holds a file of that name.
    pub fn holds(&self, name: &str, root: StorageRoot) -> (r: bool)
        ensures
            r == is_stored(self@, CandidateView { name: name@, root }),
    {
        match self.directory(root) {
            Some(d) => d.contains_key(name),
            None => false,
        }
    }

    /// The text of the candidate's file, if the store holds it.
    pub fn read_file(&self, c: &Candidate) -> (r: Option<&String>)
        ensures
            r is Some <==> is_stored(self@, c@),
            r is Some ==> r->Some_0@ == contents_of(self@, c@),
    {
        match self.directory(c.root) {
            Some(d) => d.get(c.name.as_str()),
            None => None,
        }
    }

    /// Puts `contents` in the candidate's file, in place of what the file
    /// held if there was one. Tells whether the root is there; when it is
    /// not, nothing is put.
    pub fn write_file(&mut self, c: &Candidate, contents: String) -> (written: bool)
        ensures
            written == (directory_of(old(self)@, c.root) is Some),
            final(self)@ == with_file(old(self)@, c@, contents@),
    {
        match c.root {
            StorageRoot::Default => {
                self.main.insert(c.name.clone(), contents);
                true
            },
            StorageRoot::Shared => match &mut self.shared {
                Some(d) => {
                    d.insert(c.name.clone(), contents);
                    true
                },
                None => false,
            },
        }
    }

    /// Takes the candidate's file out of the store. Tells whether the
    /// store held it.
    pub fn delete_file(&mut self, c: &Candidate) -> (deleted: bool)
        ensures
            deleted == is_stored(old(self)@, c@),
            final(self)@ == without_file(old(self)@, c@),
    {
        match c.root {
            StorageRoot::Default => self.main.remove(c.name.as_str()),
            StorageRoot::Shared => match &mut self.shared {
                Some(d) => d.remove(c.name.as_str()),
                None => false,
            },
        }
    }

    /// The candidates for the fragments, in order.
    pub fn find_candidates(&self, alias_parts: &Vec<String>) -> (list: Vec<Candidate>)
        ensures
            candidate_views(list@) == candidates(self@, texts(alias_parts@)),
    {
        let ghost parts = texts(alias_parts@);
        let mut names: Vec<String> = Vec::new();
        assert(texts(names@) =~= Seq::<Seq<char>>::empty());
        collect_matches(alias_parts, &self.main, &mut names);
        match &self.shared {
            Some(d) => {
                collect_matches(alias_parts, d, &mut names);
            },
            None => {},
        }
        let ghost all = texts(names@);
        assert(forall|n: Seq<char>|
            all.contains(n) <==> (is_match(n, parts, Some(self@.main)) || is_match(
                n,
                parts,
                self@.shared,
            )));
        let mut list: Vec<Candidate> = Vec::new();
        let mut i: usize = 0;
        assert(candidate_views(list@) =~= Seq::<CandidateView>::empty());
        while i < names.len()
            invariant
                i <= names@.len(),
                all == texts(names@),
                parts == texts(alias_parts@),
                ascending(all),
                forall|n: Seq<char>|
                    all.contains(n) <==> (is_match(n, parts, Some(self@.main)) || is_match(
                        n,
                        parts,
                        self@.shared,
                    )),
                in_order(candidate_views(list@)),
                forall|c: CandidateView|
                    candidate_views(list@).contains(c) <==> (is_candidate(self@, parts, c)
                        && exists|k: int| 0 <= k < i && #[trigger] all[k] == c.name),
            decreases names@.len() - i,
        {
            let name = &names[i];
            let ghost before = candidate_views(list@);
            assert(all[i as int] == name@);
            assert(all.contains(name@));
            let in_main = self.main.contains_key(name.as_str());
            let in_shared = match &self.shared {
                Some(d) => d.contains_key(name.as_str()),
                None => false,
            };
            let ghost first = CandidateView { name: name@, root: StorageRoot::Default };
            let ghost second = CandidateView { name: name@, root: StorageRoot::Shared };
            assert(in_main == is_candidate(self@, parts, first));
            assert(in_shared == is_candidate(self@, parts, second));
            if in_main {
                list.push(Candidate { name: name.clone(), root: StorageRoot::Default });
            }
            if in_shared {
                list.push(Candidate { name: name.clone(), root: StorageRoot::Shared });
            }
            proof {
                let after = candidate_views(list@);
                let added = if in_main {
                    if in_shared {
                        seq![first, second]
                    } else {
                        seq![first]
                    }
                } else {
                    if in_shared {
                        seq![second]
                    } else {
                        Seq::<CandidateView>::empty()
                    }
                };
                assert(after =~= before + added);
                assert forall|a: int, b: int| 0 <= a < b < after.len() implies candidate_lt(
                    #[trigger] after[a],
                    #[trigger] after[b],
                ) by {
                    if b < before.len() {
                        assert(after[a] == before[a] && after[b] == before[b]);
                    } else if a < before.len() {
                        assert(after[a] == before[a]);
                        assert(before.contains(before[a]));
                        let k = choose|k: int| 0 <= k < i && #[trigger] all[k] == before[a].name;
                        assert(text_lt(all[k], all[i as int]));
                        assert(after[b].name == name@);
                    } else {
                        assert(after[a] == first && after[b] == second);
                    }
                }
                assert forall|c: CandidateView|
                    after.contains(c) <==> (is_candidate(self@, parts, c) && exists|k: int|
                        0 <= k < i + 1 && #[trigger] all[k] == c.name) by {
                    if after.contains(c) {
                        let m = choose|m: int| 0 <= m < after.len() && after[m] == c;
                        if m < before.len() {
                            assert(before[m] == c);
                            assert(before.contains(c));
                            let k = choose|k: int| 0 <= k < i && #[trigger] all[k] == c.name;
                            assert(0 <= k < i + 1);
                        } else {
                            assert(added[m - before.len()] == c);
                            assert(0 <= i < i + 1 && all[i as int] == c.name);
                        }
                    }
                    if is_candidate(self@, parts, c) && exists|k: int|
                        0 <= k < i + 1 && #[trigger] all[k] == c.name {
                        let k = choose|k: int| 0 <= k < i + 1 && #[trigger] all[k] == c.name;
                        if k < i {
                            assert(before.contains(c));
                            let m = choose|m: int| 0 <= m < before.len() && before[m] == c;
                            assert(after[m] == c);
                        } else {
                            assert(c.name == name@);
                            if c.root == StorageRoot::Default {
                                assert(c == first);
                                assert(after[before.len() as int] == c);
                            } else {
                                assert(c == second);
                                assert(after[after.len() - 1] == c);
                            }
                        }
                    }
                }
            }
            i += 1;
        }
        proof {
            let listed = candidate_views(list@);
            assert forall|c: CandidateView| listed.contains(c) <==> is_candidate(
                self@,
                parts,
                c,
            ) by {
                if is_candidate(self@, parts, c) {
                    assert(all.contains(c.name));
                    let k = choose|k: int| 0 <= k < all.len() && all[k] == c.name;
                    assert(0 <= k < i && all[k] == c.name);
                }
            }
            lemma_candidates_are(self@, parts, listed);
        }
        list
    }

    /// Resolves an identifier to the stored aliases that it may mean: one,
    /// or several for the user to choose from, in order.
    pub fn lookup(&self, identifier: &str) -> (r: Result<Vec<Candidate>, AliasError>)
        ensures
            match resolution(self@, identifier@) {
                Ok(list) => r is Ok && candidate_views(r->Ok_0@) == list && list.len() > 0,
                Err(e) => r == Err::<Vec<Candidate>, AliasError>(e),
            },
    {
        if self.holds(identifier, StorageRoot::Default) {
            let list = vec![Candidate { name: identifier.to_owned(), root: StorageRoot::Default }];
            assert(candidate_views(list@) =~= seq![
                CandidateView { name: identifier@, root: StorageRoot::Default },
            ]);
            return Ok(list);
        }
        if self.holds(identifier, StorageRoot::Shared) {
            let list = vec![Candidate { name: identifier.to_owned(), root: StorageRoot::Shared }];
            assert(candidate_views(list@) =~= seq![
                CandidateView { name: identifier@, root: StorageRoot::Shared },
            ]);
            return Ok(list);
        }
        let parts = fragments(identifier);
        let list = self.find_candidates(&parts);
        if list.len() == 0 {
            Err(AliasError::NotFound)
        } else {
            Ok(list)
        }
    }
}

} // verus!
