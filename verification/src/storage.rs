//! Persistent records and the store's merge policy. `MemStore` is the
//! verified record set with the exact upsert, export and import semantics;
//! a filesystem backend persists the same records one file per record,
//! under the paths that `FsStore` computes, and defers every merge
//! decision to the functions here.

use vstd::prelude::*;
use crate::source::{
    spec_item_ident, spec_source_name, DetailsItemV, DetailsV, IdentV, ReadmeRepo, ReadmeRepoV,
    RepoDetailsItem, RepoIdent,
};

verus! {

/// Mathematical value of an `Item`.
#[verifier::ext_equal]
pub ghost enum ItemV {
    Repo(DetailsItemV),
    ReadmeRepo(ReadmeRepoV),
}

/// Any record the store can hold, for exports and imports.
#[derive(Debug, PartialEq, Eq)]
pub enum Item {
    Repo(RepoDetailsItem),
    ReadmeRepo(ReadmeRepo),
}

impl View for Item {
    type V = ItemV;

    open spec fn view(&self) -> ItemV {
        match self {
            Item::Repo(d) => ItemV::Repo(d@),
            Item::ReadmeRepo(r) => ItemV::ReadmeRepo(r@),
        }
    }
}

impl DeepView for Item {
    type V = ItemV;

    open spec fn deep_view(&self) -> ItemV {
        self.view()
    }
}

impl Clone for Item {
    fn clone(&self) -> (r: Self)
        ensures
            r@ == self@,
    {
        match self {
            Item::Repo(d) => Item::Repo(d.clone()),
            Item::ReadmeRepo(rr) => Item::ReadmeRepo(rr.clone()),
        }
    }
}

/// The merge policy for metadata records: anything fills an empty slot; a
/// snapshot always beats a not-found fact; between two records of the same
/// kind the strictly newer one wins; a not-found fact never overwrites a
/// snapshot.
pub open spec fn spec_should_replace_details(
    imported: DetailsItemV,
    existing: Option<DetailsItemV>,
) -> bool {
    match existing {
        None => true,
        Some(old) => match imported {
            DetailsItemV::Found(n) => match old {
                DetailsItemV::NotFound { .. } => true,
                DetailsItemV::Found(o) => n.updated_at > o.updated_at,
            },
            DetailsItemV::NotFound { updated_at: n, .. } => match old {
                DetailsItemV::NotFound { updated_at: o, .. } => n > o,
                DetailsItemV::Found(_) => false,
            },
        },
    }
}

/// Executable merge decision for metadata records.
pub fn should_replace_details(
    imported: &RepoDetailsItem,
    existing: &Option<RepoDetailsItem>,
) -> (r: bool)
    ensures
        r == spec_should_replace_details(imported@, existing.deep_view()),
{
    match existing {
        None => true,
        Some(old) => match (imported, old) {
            (RepoDetailsItem::Found(_), RepoDetailsItem::NotFound { .. }) => true,
            (RepoDetailsItem::Found(n), RepoDetailsItem::Found(o)) => n.updated_at > o.updated_at,
            (
                RepoDetailsItem::NotFound { updated_at: n, .. },
                RepoDetailsItem::NotFound { updated_at: o, .. },
            ) => n > o,
            (RepoDetailsItem::NotFound { .. }, RepoDetailsItem::Found(_)) => false,
        },
    }
}

/// The merge policy for list documents: the strictly newer record wins.
pub open spec fn spec_should_replace_readme(
    imported: ReadmeRepoV,
    existing: Option<ReadmeRepoV>,
) -> bool {
    match existing {
        None => true,
        Some(old) => imported.updated_at > old.updated_at,
    }
}

/// Executable merge decision for list documents.
pub fn should_replace_readme(imported: &ReadmeRepo, existing: &Option<ReadmeRepo>) -> (r: bool)
    ensures
        r == spec_should_replace_readme(imported@, existing.deep_view()),
{
    match existing {
        None => true,
        Some(old) => imported.updated_at > old.updated_at,
    }
}

/// Mathematical value of a `MemStore`.
#[verifier::ext_equal]
pub ghost struct StoreV {
    pub details: Seq<DetailsItemV>,
    pub readmes: Seq<ReadmeRepoV>,
}

/// The first metadata record for the given repository, if any.
pub open spec fn spec_find_details(s: Seq<DetailsItemV>, id: IdentV) -> Option<DetailsItemV>
    decreases s.len(),
{
    if s.len() == 0 {
        None
    } else if spec_item_ident(s[0]) == id {
        Some(s[0])
    } else {
        spec_find_details(s.drop_first(), id)
    }
}

/// The first list document for the given repository, if any.
pub open spec fn spec_find_readme(s: Seq<ReadmeRepoV>, id: IdentV) -> Option<ReadmeRepoV>
    decreases s.len(),
{
    if s.len() == 0 {
        None
    } else if s[0].details.ident == id {
        Some(s[0])
    } else {
        spec_find_readme(s.drop_first(), id)
    }
}

/// Replaces the record with the item's repository, or appends the item.
pub open spec fn spec_upsert_details(s: Seq<DetailsItemV>, item: DetailsItemV) -> Seq<
    DetailsItemV,
>
    decreases s.len(),
{
    if s.len() == 0 {
        seq![item]
    } else if spec_item_ident(s[0]) == spec_item_ident(item) {
        seq![item] + s.drop_first()
    } else {
        seq![s[0]] + spec_upsert_details(s.drop_first(), item)
    }
}

/// Replaces the document of the item's repository, or appends the item.
pub open spec fn spec_upsert_readme(s: Seq<ReadmeRepoV>, item: ReadmeRepoV) -> Seq<ReadmeRepoV>
    decreases s.len(),
{
    if s.len() == 0 {
        seq![item]
    } else if s[0].details.ident == item.details.ident {
        seq![item] + s.drop_first()
    } else {
        seq![s[0]] + spec_upsert_readme(s.drop_first(), item)
    }
}

/// No two metadata records speak about the same repository.
pub open spec fn details_unique(s: Seq<DetailsItemV>) -> bool {
    forall|i: int, j: int|
        0 <= i < j < s.len() ==> spec_item_ident(s[i]) != spec_item_ident(s[j])
}

/// No two list documents belong to the same repository.
pub open spec fn readmes_unique(s: Seq<ReadmeRepoV>) -> bool {
    forall|i: int, j: int| 0 <= i < j < s.len() ==> s[i].details.ident != s[j].details.ident
}

/// Every repository has at most one record of each kind.
pub open spec fn store_wf(st: StoreV) -> bool {
    details_unique(st.details) && readmes_unique(st.readmes)
}

/// Importing one record: the merge policy decides whether it replaces what
/// the store holds for its repository.
pub open spec fn spec_import_one(st: StoreV, item: ItemV) -> StoreV {
    match item {
        ItemV::Repo(d) => if spec_should_replace_details(
            d,
            spec_find_details(st.details, spec_item_ident(d)),
        ) {
            StoreV { details: spec_upsert_details(st.details, d), ..st }
        } else {
            st
        },
        ItemV::ReadmeRepo(r) => if spec_should_replace_readme(
            r,
            spec_find_readme(st.readmes, r.details.ident),
        ) {
            StoreV { readmes: spec_upsert_readme(st.readmes, r), ..st }
        } else {
            st
        },
    }
}

/// Importing a batch, in order.
pub open spec fn spec_import(st: StoreV, items: Seq<ItemV>) -> StoreV
    decreases items.len(),
{
    if items.len() == 0 {
        st
    } else {
        spec_import(spec_import_one(st, items[0]), items.drop_first())
    }
}

/// Everything the store holds, metadata records first, as one batch.
pub open spec fn spec_export(st: StoreV) -> Seq<ItemV> {
    Seq::new(st.details.len(), |i: int| ItemV::Repo(st.details[i])) + Seq::new(
        st.readmes.len(),
        |i: int| ItemV::ReadmeRepo(st.readmes[i]),
    )
}

/// The in-memory record store: the verified model of persistent storage,
/// with one metadata record and one list document per repository at most.
#[derive(Debug)]
pub struct MemStore {
    details: Vec<RepoDetailsItem>,
    readmes: Vec<ReadmeRepo>,
}

impl View for MemStore {
    type V = StoreV;

    closed spec fn view(&self) -> StoreV {
        StoreV { details: self.details.deep_view(), readmes: self.readmes.deep_view() }
    }
}

impl MemStore {
    /// An empty store.
    pub fn new() -> (r: Self)
        ensures
            r@ == (StoreV { details: Seq::empty(), readmes: Seq::empty() }),
            store_wf(r@),
    {
        let r = MemStore { details: Vec::new(), readmes: Vec::new() };
        proof {
            assert(r@.details =~= Seq::<DetailsItemV>::empty());
            assert(r@.readmes =~= Seq::<ReadmeRepoV>::empty());
            assert(r@ =~= (StoreV { details: Seq::empty(), readmes: Seq::empty() }));
        }
        r
    }

    /// The metadata record of one repository, cloned out.
    pub fn repo_details(&self, ident: &RepoIdent) -> (r: Option<RepoDetailsItem>)
        ensures
            r.deep_view() == spec_find_details(self@.details, ident@),
    {
        let mut i: usize = 0;
        proof {
            assert(self@.details.skip(0) =~= self@.details);
        }
        while i < self.details.len()
            invariant
                0 <= i <= self.details.len(),
                spec_find_details(self@.details, ident@) == spec_find_details(
                    self@.details.skip(i as int),
                    ident@,
                ),
            decreases self.details.len() - i,
        {
            proof {
                assert(self@.details.skip(i as int)[0] == self@.details[i as int]);
                assert(self@.details.skip(i as int).drop_first() =~= self@.details.skip(
                    i as int + 1,
                ));
            }
            if self.details[i].ident() == ident {
                let d = self.details[i].clone();
                return Some(d);
            }
            i = i + 1;
        }
        proof {
            assert(self@.details.skip(self.details.len() as int) =~= Seq::<DetailsItemV>::empty());
        }
        None
    }

    /// The metadata records of the given repositories, in the asked-for
    /// order, leaving out those the store does not hold.
    pub fn repo_details_multi(&self, idents: &Vec<RepoIdent>) -> (r: Vec<RepoDetailsItem>)
        ensures
            r.deep_view() == spec_details_multi(self@.details, idents.deep_view()),
    {
        let mut out: Vec<RepoDetailsItem> = Vec::new();
        let mut i: usize = 0;
        proof {
            assert(idents.deep_view().skip(0) =~= idents.deep_view());
            assert(out.deep_view() =~= Seq::<DetailsItemV>::empty());
            assert(out.deep_view() + spec_details_multi(self@.details, idents.deep_view())
                =~= spec_details_multi(self@.details, idents.deep_view()));
        }
        while i < idents.len()
            invariant
                0 <= i <= idents.len(),
                spec_details_multi(self@.details, idents.deep_view()) =~= out.deep_view()
                    + spec_details_multi(self@.details, idents.deep_view().skip(i as int)),
            decreases idents.len() - i,
        {
            proof {
                assert(idents.deep_view().skip(i as int)[0] == idents.deep_view()[i as int]);
                assert(idents.deep_view().skip(i as int).drop_first() =~= idents.deep_view().skip(
                    i as int + 1,
                ));
            }
            match self.repo_details(&idents[i]) {
                Some(d) => {
                    let ghost ov = out.deep_view();
                    out.push(d);
                    proof {
                        assert(out.deep_view() =~= ov.push(
                            spec_find_details(self@.details, idents.deep_view()[i as int])->0,
                        ));
                        assert(out.deep_view() + spec_details_multi(
                            self@.details,
                            idents.deep_view().skip(i as int + 1),
                        ) =~= ov + (seq![
                            spec_find_details(self@.details, idents.deep_view()[i as int])->0,
                        ] + spec_details_multi(
                            self@.details,
                            idents.deep_view().skip(i as int + 1),
                        )));
                    }
                },
                None => {},
            }
            i = i + 1;
        }
        proof {
            assert(idents.deep_view().skip(idents.len() as int) =~= Seq::<IdentV>::empty());
            assert(out.deep_view() + spec_details_multi(
                self@.details,
                Seq::<IdentV>::empty(),
            ) =~= out.deep_view());
        }
        out
    }

    /// Stores a metadata record, replacing the one its repository had.
    #[verifier::loop_isolation(false)]
    pub fn repo_details_upsert(&mut self, item: RepoDetailsItem)
        requires
            store_wf(old(self)@),
        ensures
            store_wf(final(self)@),
            final(self)@.details == spec_upsert_details(old(self)@.details, item@),
            final(self)@.readmes == old(self)@.readmes,
    {
        let ghost s = self@.details;
        proof {
            lemma_upsert_details_props(s, item@);
        }
        let mut k: usize = 0;
        proof {
            assert(s.skip(0) =~= s);
        }
        while k < self.details.len()
            invariant
                0 <= k <= self.details.len(),
                s == self@.details,
                old(self)@.readmes == self@.readmes,
                forall|j: int| 0 <= j < k ==> spec_item_ident(s[j]) != spec_item_ident(item@),
                spec_upsert_details(s, item@) =~= s.take(k as int) + spec_upsert_details(
                    s.skip(k as int),
                    item@,
                ),
            decreases self.details.len() - k,
        {
            proof {
                assert(s.skip(k as int)[0] == s[k as int]);
                assert(s.skip(k as int).drop_first() =~= s.skip(k as int + 1));
            }
            if self.details[k].ident() == item.ident() {
                proof {
                    assert(spec_upsert_details(s.skip(k as int), item@) =~= seq![item@] + s.skip(
                        k as int + 1,
                    ));
                }
                let _old = self.details.remove(k);
                self.details.insert(k, item);
                proof {
                    assert(self@.details =~= s.take(k as int) + (seq![item@] + s.skip(
                        k as int + 1,
                    )));
                }
                return ;
            }
            proof {
                assert(s.take(k as int + 1) =~= s.take(k as int) + seq![s[k as int]]);
                assert(s.take(k as int) + (seq![s[k as int]] + spec_upsert_details(
                    s.skip(k as int + 1),
                    item@,
                )) =~= s.take(k as int + 1) + spec_upsert_details(s.skip(k as int + 1), item@));
            }
            k = k + 1;
        }
        proof {
            assert(s.skip(s.len() as int) =~= Seq::<DetailsItemV>::empty());
            assert(spec_upsert_details(s.skip(s.len() as int), item@) =~= seq![item@]);
        }
        self.details.push(item);
        proof {
            assert(self@.details =~= s.take(s.len() as int) + seq![item@]);
        }
    }

    /// The list document of one repository, cloned out.
    pub fn readme_repo(&self, ident: &RepoIdent) -> (r: Option<ReadmeRepo>)
        ensures
            r.deep_view() == spec_find_readme(self@.readmes, ident@),
    {
        let mut i: usize = 0;
        proof {
            assert(self@.readmes.skip(0) =~= self@.readmes);
        }
        while i < self.readmes.len()
            invariant
                0 <= i <= self.readmes.len(),
                spec_find_readme(self@.readmes, ident@) == spec_find_readme(
                    self@.readmes.skip(i as int),
                    ident@,
                ),
            decreases self.readmes.len() - i,
        {
            proof {
                assert(self@.readmes.skip(i as int)[0] == self@.readmes[i as int]);
                assert(self@.readmes.skip(i as int).drop_first() =~= self@.readmes.skip(
                    i as int + 1,
                ));
            }
            if &self.readmes[i].details.ident == ident {
                let d = self.readmes[i].clone();
                return Some(d);
            }
            i = i + 1;
        }
        proof {
            assert(self@.readmes.skip(self.readmes.len() as int) =~= Seq::<ReadmeRepoV>::empty());
        }
        None
    }

    /// Stores a list document, replacing the one its repository had.
    #[verifier::loop_isolation(false)]
    pub fn readme_repo_upsert(&mut self, item: ReadmeRepo)
        requires
            store_wf(old(self)@),
        ensures
            store_wf(final(self)@),
            final(self)@.readmes == spec_upsert_readme(old(self)@.readmes, item@),
            final(self)@.details == old(self)@.details,
    {
        let ghost s = self@.readmes;
        proof {
            lemma_upsert_readme_props(s, item@);
        }
        let mut k: usize = 0;
        proof {
            assert(s.skip(0) =~= s);
        }
        while k < self.readmes.len()
            invariant
                0 <= k <= self.readmes.len(),
                s == self@.readmes,
                old(self)@.details == self@.details,
                forall|j: int| 0 <= j < k ==> s[j].details.ident != item@.details.ident,
                spec_upsert_readme(s, item@) =~= s.take(k as int) + spec_upsert_readme(
                    s.skip(k as int),
                    item@,
                ),
            decreases self.readmes.len() - k,
        {
            proof {
                assert(s.skip(k as int)[0] == s[k as int]);
                assert(s.skip(k as int).drop_first() =~= s.skip(k as int + 1));
            }
            if &self.readmes[k].details.ident == &item.details.ident {
                proof {
                    assert(spec_upsert_readme(s.skip(k as int), item@) =~= seq![item@] + s.skip(
                        k as int + 1,
                    ));
                }
                let _old = self.readmes.remove(k);
                self.readmes.insert(k, item);
                proof {
                    assert(self@.readmes =~= s.take(k as int) + (seq![item@] + s.skip(
                        k as int + 1,
                    )));
                }
                return ;
            }
            proof {
                assert(s.take(k as int + 1) =~= s.take(k as int) + seq![s[k as int]]);
                assert(s.take(k as int) + (seq![s[k as int]] + spec_upsert_readme(
                    s.skip(k as int + 1),
                    item@,
                )) =~= s.take(k as int + 1) + spec_upsert_readme(s.skip(k as int + 1), item@));
            }
            k = k + 1;
        }
        proof {
            assert(s.skip(s.len() as int) =~= Seq::<ReadmeRepoV>::empty());
            assert(spec_upsert_readme(s.skip(s.len() as int), item@) =~= seq![item@]);
        }
        self.readmes.push(item);
        proof {
            assert(self@.readmes =~= s.take(s.len() as int) + seq![item@]);
        }
    }

    /// Every metadata record, in storage order, cloned out.
    pub fn repo_details_list(&self) -> (r: Vec<RepoDetailsItem>)
        ensures
            r.deep_view() == self@.details,
    {
        clone_details(&self.details)
    }

    /// Every list document, in storage order, cloned out.
    pub fn readme_repo_list(&self) -> (r: Vec<ReadmeRepo>)
        ensures
            r.deep_view() == self@.readmes,
    {
        clone_readmes(&self.readmes)
    }

    /// Everything the store holds, metadata records first.
    pub fn export(&self) -> (r: Vec<Item>)
        ensures
            r.deep_view() == spec_export(self@),
    {
        let mut out: Vec<Item> = Vec::new();
        let mut i: usize = 0;
        proof {
            assert(out.deep_view() =~= Seq::<ItemV>::empty());
        }
        while i < self.details.len()
            invariant
                0 <= i <= self.details.len(),
                out.deep_view() =~= Seq::new(i as nat, |k: int| ItemV::Repo(self@.details[k])),
            decreases self.details.len() - i,
        {
            let ghost ov = out.deep_view();
            let d = self.details[i].clone();
            out.push(Item::Repo(d));
            proof {
                assert(out.deep_view() =~= ov.push(ItemV::Repo(self@.details[i as int])));
            }
            i = i + 1;
        }
        let mut j: usize = 0;
        while j < self.readmes.len()
            invariant
                0 <= j <= self.readmes.len(),
                out.deep_view() =~= Seq::new(
                    self@.details.len(),
                    |k: int| ItemV::Repo(self@.details[k]),
                ) + Seq::new(j as nat, |k: int| ItemV::ReadmeRepo(self@.readmes[k])),
            decreases self.readmes.len() - j,
        {
            let ghost ov = out.deep_view();
            let d = self.readmes[j].clone();
            out.push(Item::ReadmeRepo(d));
            proof {
                assert(out.deep_view() =~= ov.push(ItemV::ReadmeRepo(self@.readmes[j as int])));
            }
            j = j + 1;
        }
        out
    }

    /// Imports a batch of records, in order, applying the merge policy to
    /// each: a record fills an empty slot; a snapshot beats a not-found
    /// fact; between records of one kind the strictly newer wins; a
    /// not-found fact never overwrites a snapshot.
    #[verifier::loop_isolation(false)]
    pub fn import(&mut self, items: Vec<Item>)
        requires
            store_wf(old(self)@),
        ensures
            store_wf(final(self)@),
            final(self)@ == spec_import(old(self)@, items.deep_view()),
    {
        let ghost its = items.deep_view();
        let mut items = items;
        let mut i: usize = 0;
        let n = items.len();
        proof {
            assert(its.skip(0) =~= its);
        }
        while i < n
            invariant
                0 <= i <= n,
                n == items.len(),
                its == items.deep_view(),
                store_wf(self@),
                spec_import(old(self)@, its) == spec_import(self@, its.skip(i as int)),
            decreases n - i,
        {
            proof {
                assert(its.skip(i as int)[0] == its[i as int]);
                assert(its.skip(i as int).drop_first() =~= its.skip(i as int + 1));
            }
            let item = items[i].clone();
            match item {
                Item::Repo(d) => {
                    let existing = self.repo_details(d.ident());
                    if should_replace_details(&d, &existing) {
                        self.repo_details_upsert(d);
                    }
                },
                Item::ReadmeRepo(r) => {
                    let existing = self.readme_repo(&r.details.ident);
                    if should_replace_readme(&r, &existing) {
                        self.readme_repo_upsert(r);
                    }
                },
            }
            i = i + 1;
        }
        proof {
            assert(its.skip(n as int) =~= Seq::<ItemV>::empty());
        }
    }
}

/// The records found for the given repositories, in their order.
pub open spec fn spec_details_multi(s: Seq<DetailsItemV>, ids: Seq<IdentV>) -> Seq<DetailsItemV>
    decreases ids.len(),
{
    if ids.len() == 0 {
        Seq::empty()
    } else {
        (match spec_find_details(s, ids[0]) {
            Some(d) => seq![d],
            None => Seq::empty(),
        }) + spec_details_multi(s, ids.drop_first())
    }
}

/// Clones a vector of metadata records.
fn clone_details(v: &Vec<RepoDetailsItem>) -> (r: Vec<RepoDetailsItem>)
    ensures
        r.deep_view() == v.deep_view(),
{
    let mut out: Vec<RepoDetailsItem> = Vec::new();
    let mut i: usize = 0;
    proof {
        assert(out.deep_view() =~= v.deep_view().take(0));
    }
    while i < v.len()
        invariant
            0 <= i <= v.len(),
            out.deep_view() == v.deep_view().take(i as int),
        decreases v.len() - i,
    {
        let ghost ov = out.deep_view();
        let d = v[i].clone();
        out.push(d);
        proof {
            assert(out.deep_view() =~= ov.push(v.deep_view()[i as int]));
            assert(out.deep_view() =~= v.deep_view().take(i as int + 1));
        }
        i = i + 1;
    }
    proof {
        assert(v.deep_view().take(v.len() as int) =~= v.deep_view());
    }
    out
}

/// Clones a vector of list documents.
fn clone_readmes(v: &Vec<ReadmeRepo>) -> (r: Vec<ReadmeRepo>)
    ensures
        r.deep_view() == v.deep_view(),
{
    let mut out: Vec<ReadmeRepo> = Vec::new();
    let mut i: usize = 0;
    proof {
        assert(out.deep_view() =~= v.deep_view().take(0));
    }
    while i < v.len()
        invariant
            0 <= i <= v.len(),
            out.deep_view() == v.deep_view().take(i as int),
        decreases v.len() - i,
    {
        let ghost ov = out.deep_view();
        let d = v[i].clone();
        out.push(d);
        proof {
            assert(out.deep_view() =~= ov.push(v.deep_view()[i as int]));
            assert(out.deep_view() =~= v.deep_view().take(i as int + 1));
        }
        i = i + 1;
    }
    proof {
        assert(v.deep_view().take(v.len() as int) =~= v.deep_view());
    }
    out
}

/// What upserting does to the records: the item's repository now maps to
/// the item, every other repository keeps its record, and uniqueness is
/// preserved.
#[verifier::rlimit(50)]
pub proof fn lemma_upsert_details_props(s: Seq<DetailsItemV>, item: DetailsItemV)
    requires
        details_unique(s),
    ensures
        details_unique(spec_upsert_details(s, item)),
        spec_find_details(spec_upsert_details(s, item), spec_item_ident(item)) == Some(item),
        forall|id: IdentV|
            id != spec_item_ident(item) ==> spec_find_details(spec_upsert_details(s, item), id)
                == spec_find_details(s, id),
    decreases s.len(),
{
    let t = spec_upsert_details(s, item);
    if s.len() == 0 {
        assert(t =~= seq![item]);
        assert(t.drop_first() =~= Seq::<DetailsItemV>::empty());
        assert forall|id: IdentV|
            id != spec_item_ident(item) implies spec_find_details(t, id) == spec_find_details(
            s,
            id,
        ) by {
            assert(spec_find_details(t.drop_first(), id) is None);
            assert(spec_find_details(t, id) is None);
            assert(spec_find_details(s, id) is None);
        }
    } else if spec_item_ident(s[0]) == spec_item_ident(item) {
        assert(t =~= seq![item] + s.drop_first());
        assert(t[0] == item);
        assert(t.drop_first() =~= s.drop_first());
        assert(details_unique(t)) by {
            assert forall|i: int, j: int|
                0 <= i < j < t.len() implies spec_item_ident(t[i]) != spec_item_ident(t[j]) by {
                if i == 0 {
                    assert(t[j] == s[j]);
                    assert(spec_item_ident(s[0]) != spec_item_ident(s[j]));
                } else {
                    assert(t[i] == s[i] && t[j] == s[j]);
                    assert(spec_item_ident(s[i]) != spec_item_ident(s[j]));
                }
            }
        }
        assert forall|id: IdentV|
            id != spec_item_ident(item) implies spec_find_details(t, id) == spec_find_details(
            s,
            id,
        ) by {
            assert(spec_find_details(t, id) == spec_find_details(s.drop_first(), id));
        }
    } else {
        assert(details_unique(s.drop_first())) by {
            assert forall|i: int, j: int|
                0 <= i < j < s.drop_first().len() implies spec_item_ident(s.drop_first()[i])
                != spec_item_ident(s.drop_first()[j]) by {
                assert(s.drop_first()[i] == s[i + 1] && s.drop_first()[j] == s[j + 1]);
                assert(spec_item_ident(s[i + 1]) != spec_item_ident(s[j + 1]));
            }
        }
        lemma_upsert_details_props(s.drop_first(), item);
        let t2 = spec_upsert_details(s.drop_first(), item);
        assert(t =~= seq![s[0]] + t2);
        assert(t[0] == s[0]);
        assert(t.drop_first() =~= t2);
        assert(details_unique(t)) by {
            assert forall|i: int, j: int|
                0 <= i < j < t.len() implies spec_item_ident(t[i]) != spec_item_ident(t[j]) by {
                if i == 0 {
                    assert(t[j] == t2[j - 1]);
                    lemma_upsert_details_member(s.drop_first(), item, j - 1);
                    if t2[j - 1] == item {
                    } else {
                        assert(s.drop_first().contains(t2[j - 1]));
                        let u = choose|u: int|
                            0 <= u < s.drop_first().len() && s.drop_first()[u] == t2[j - 1];
                        assert(s[u + 1] == t2[j - 1]);
                        assert(spec_item_ident(s[0]) != spec_item_ident(s[u + 1]));
                    }
                } else {
                    assert(t[i] == t2[i - 1] && t[j] == t2[j - 1]);
                    assert(spec_item_ident(t2[i - 1]) != spec_item_ident(t2[j - 1]));
                }
            }
        }
        assert(spec_find_details(t, spec_item_ident(item)) == spec_find_details(
            t2,
            spec_item_ident(item),
        ));
        assert forall|id: IdentV|
            id != spec_item_ident(item) implies spec_find_details(t, id) == spec_find_details(
            s,
            id,
        ) by {
            if spec_item_ident(s[0]) == id {
                assert(spec_find_details(t, id) == Some(t[0]));
                assert(spec_find_details(s, id) == Some(s[0]));
            } else {
                assert(spec_find_details(t, id) == spec_find_details(t2, id));
                assert(spec_find_details(s, id) == spec_find_details(s.drop_first(), id));
            }
        }
    }
}

/// Every record of an upsert result is the new item or one of the
/// originals.
proof fn lemma_upsert_details_member(s: Seq<DetailsItemV>, item: DetailsItemV, w: int)
    requires
        0 <= w < spec_upsert_details(s, item).len(),
    ensures
        spec_upsert_details(s, item)[w] == item || s.contains(spec_upsert_details(s, item)[w]),
    decreases s.len(),
{
    let t = spec_upsert_details(s, item);
    if s.len() == 0 {
    } else if spec_item_ident(s[0]) == spec_item_ident(item) {
        assert(t =~= seq![item] + s.drop_first());
        if w > 0 {
            assert(t[w] == s.drop_first()[w - 1]);
            assert(s[w] == s.drop_first()[w - 1]);
            assert(s.contains(t[w]));
        }
    } else {
        let t2 = spec_upsert_details(s.drop_first(), item);
        assert(t =~= seq![s[0]] + t2);
        if w == 0 {
            assert(s.contains(s[0]));
        } else {
            lemma_upsert_details_member(s.drop_first(), item, w - 1);
            assert(t[w] == t2[w - 1]);
            if s.drop_first().contains(t2[w - 1]) {
                let u = choose|u: int|
                    0 <= u < s.drop_first().len() && s.drop_first()[u] == t2[w - 1];
                assert(s[u + 1] == t2[w - 1]);
                assert(s.contains(t[w]));
            }
        }
    }
}

/// What upserting does to the documents: like `lemma_upsert_details_props`,
/// for the list-document half of the store.
#[verifier::rlimit(50)]
pub proof fn lemma_upsert_readme_props(s: Seq<ReadmeRepoV>, item: ReadmeRepoV)
    requires
        readmes_unique(s),
    ensures
        readmes_unique(spec_upsert_readme(s, item)),
        spec_find_readme(spec_upsert_readme(s, item), item.details.ident) == Some(item),
        forall|id: IdentV|
            id != item.details.ident ==> spec_find_readme(spec_upsert_readme(s, item), id)
                == spec_find_readme(s, id),
    decreases s.len(),
{
    let t = spec_upsert_readme(s, item);
    if s.len() == 0 {
        assert(t =~= seq![item]);
        assert(t.drop_first() =~= Seq::<ReadmeRepoV>::empty());
        assert forall|id: IdentV|
            id != item.details.ident implies spec_find_readme(t, id) == spec_find_readme(
            s,
            id,
        ) by {
            assert(spec_find_readme(t.drop_first(), id) is None);
            assert(spec_find_readme(t, id) is None);
            assert(spec_find_readme(s, id) is None);
        }
    } else if s[0].details.ident == item.details.ident {
        assert(t =~= seq![item] + s.drop_first());
        assert(t[0] == item);
        assert(t.drop_first() =~= s.drop_first());
        assert(readmes_unique(t)) by {
            assert forall|i: int, j: int|
                0 <= i < j < t.len() implies t[i].details.ident != t[j].details.ident by {
                if i == 0 {
                    assert(t[j] == s[j]);
                    assert(s[0].details.ident != s[j].details.ident);
                } else {
                    assert(t[i] == s[i] && t[j] == s[j]);
                    assert(s[i].details.ident != s[j].details.ident);
                }
            }
        }
        assert forall|id: IdentV|
            id != item.details.ident implies spec_find_readme(t, id) == spec_find_readme(
            s,
            id,
        ) by {
            assert(spec_find_readme(t, id) == spec_find_readme(s.drop_first(), id));
        }
    } else {
        assert(readmes_unique(s.drop_first())) by {
            assert forall|i: int, j: int|
                0 <= i < j < s.drop_first().len() implies s.drop_first()[i].details.ident
                != s.drop_first()[j].details.ident by {
                assert(s.drop_first()[i] == s[i + 1] && s.drop_first()[j] == s[j + 1]);
                assert(s[i + 1].details.ident != s[j + 1].details.ident);
            }
        }
        lemma_upsert_readme_props(s.drop_first(), item);
        let t2 = spec_upsert_readme(s.drop_first(), item);
        assert(t =~= seq![s[0]] + t2);
        assert(t[0] == s[0]);
        assert(t.drop_first() =~= t2);
        assert(readmes_unique(t)) by {
            assert forall|i: int, j: int|
                0 <= i < j < t.len() implies t[i].details.ident != t[j].details.ident by {
                if i == 0 {
                    assert(t[j] == t2[j - 1]);
                    lemma_upsert_readme_member(s.drop_first(), item, j - 1);
                    if t2[j - 1] == item {
                    } else {
                        assert(s.drop_first().contains(t2[j - 1]));
                        let u = choose|u: int|
                            0 <= u < s.drop_first().len() && s.drop_first()[u] == t2[j - 1];
                        assert(s[u + 1] == t2[j - 1]);
                        assert(s[0].details.ident != s[u + 1].details.ident);
                    }
                } else {
                    assert(t[i] == t2[i - 1] && t[j] == t2[j - 1]);
                    assert(t2[i - 1].details.ident != t2[j - 1].details.ident);
                }
            }
        }
        assert(spec_find_readme(t, item.details.ident) == spec_find_readme(
            t2,
            item.details.ident,
        ));
        assert forall|id: IdentV|
            id != item.details.ident implies spec_find_readme(t, id) == spec_find_readme(
            s,
            id,
        ) by {
            if s[0].details.ident == id {
                assert(spec_find_readme(t, id) == Some(t[0]));
                assert(spec_find_readme(s, id) == Some(s[0]));
            } else {
                assert(spec_find_readme(t, id) == spec_find_readme(t2, id));
                assert(spec_find_readme(s, id) == spec_find_readme(s.drop_first(), id));
            }
        }
    }
}

/// Every document of an upsert result is the new item or one of the
/// originals.
proof fn lemma_upsert_readme_member(s: Seq<ReadmeRepoV>, item: ReadmeRepoV, w: int)
    requires
        0 <= w < spec_upsert_readme(s, item).len(),
    ensures
        spec_upsert_readme(s, item)[w] == item || s.contains(spec_upsert_readme(s, item)[w]),
    decreases s.len(),
{
    let t = spec_upsert_readme(s, item);
    if s.len() == 0 {
    } else if s[0].details.ident == item.details.ident {
        assert(t =~= seq![item] + s.drop_first());
        if w > 0 {
            assert(t[w] == s.drop_first()[w - 1]);
            assert(s[w] == s.drop_first()[w - 1]);
            assert(s.contains(t[w]));
        }
    } else {
        let t2 = spec_upsert_readme(s.drop_first(), item);
        assert(t =~= seq![s[0]] + t2);
        if w == 0 {
            assert(s.contains(s[0]));
        } else {
            lemma_upsert_readme_member(s.drop_first(), item, w - 1);
            assert(t[w] == t2[w - 1]);
            if s.drop_first().contains(t2[w - 1]) {
                let u = choose|u: int|
                    0 <= u < s.drop_first().len() && s.drop_first()[u] == t2[w - 1];
                assert(s[u + 1] == t2[w - 1]);
                assert(s.contains(t[w]));
            }
        }
    }
}

/// A repository no record speaks about is not found.
proof fn lemma_find_details_absent(s: Seq<DetailsItemV>, id: IdentV)
    requires
        forall|i: int| 0 <= i < s.len() ==> spec_item_ident(s[i]) != id,
    ensures
        spec_find_details(s, id) is None,
    decreases s.len(),
{
    if s.len() > 0 {
        lemma_find_details_absent(s.drop_first(), id);
    }
}

/// A repository no document belongs to is not found.
proof fn lemma_find_readme_absent(s: Seq<ReadmeRepoV>, id: IdentV)
    requires
        forall|i: int| 0 <= i < s.len() ==> s[i].details.ident != id,
    ensures
        spec_find_readme(s, id) is None,
    decreases s.len(),
{
    if s.len() > 0 {
        lemma_find_readme_absent(s.drop_first(), id);
    }
}

/// Upserting a record whose repository is absent appends it.
proof fn lemma_upsert_details_absent_is_push(s: Seq<DetailsItemV>, item: DetailsItemV)
    requires
        forall|i: int| 0 <= i < s.len() ==> spec_item_ident(s[i]) != spec_item_ident(item),
    ensures
        spec_upsert_details(s, item) == s.push(item),
    decreases s.len(),
{
    if s.len() == 0 {
        assert(spec_upsert_details(s, item) =~= s.push(item));
    } else {
        lemma_upsert_details_absent_is_push(s.drop_first(), item);
        assert(seq![s[0]] + s.drop_first().push(item) =~= s.push(item));
    }
}

/// Upserting a document whose repository is absent appends it.
proof fn lemma_upsert_readme_absent_is_push(s: Seq<ReadmeRepoV>, item: ReadmeRepoV)
    requires
        forall|i: int| 0 <= i < s.len() ==> s[i].details.ident != item.details.ident,
    ensures
        spec_upsert_readme(s, item) == s.push(item),
    decreases s.len(),
{
    if s.len() == 0 {
        assert(spec_upsert_readme(s, item) =~= s.push(item));
    } else {
        lemma_upsert_readme_absent_is_push(s.drop_first(), item);
        assert(seq![s[0]] + s.drop_first().push(item) =~= s.push(item));
    }
}

/// Importing a concatenated batch imports the two halves in turn.
proof fn lemma_import_append(st: StoreV, a: Seq<ItemV>, b: Seq<ItemV>)
    ensures
        spec_import(st, a + b) == spec_import(spec_import(st, a), b),
    decreases a.len(),
{
    if a.len() == 0 {
        assert(a + b =~= b);
    } else {
        assert((a + b)[0] == a[0]);
        assert((a + b).drop_first() =~= a.drop_first() + b);
        lemma_import_append(spec_import_one(st, a[0]), a.drop_first(), b);
    }
}

/// Importing metadata records whose repositories are all new appends them
/// in order and leaves the documents alone.
proof fn lemma_import_details_batch(st: StoreV, d: Seq<DetailsItemV>)
    requires
        details_unique(st.details + d),
    ensures
        spec_import(st, Seq::new(d.len(), |i: int| ItemV::Repo(d[i]))) == (StoreV {
            details: st.details + d,
            readmes: st.readmes,
        }),
    decreases d.len(),
{
    let items = Seq::new(d.len(), |i: int| ItemV::Repo(d[i]));
    if d.len() == 0 {
        assert(st.details + d =~= st.details);
        assert(spec_import(st, items) =~= (StoreV { details: st.details + d, readmes: st.readmes }));
    } else {
        let all = st.details + d;
        assert forall|i: int|
            0 <= i < st.details.len() implies spec_item_ident(st.details[i]) != spec_item_ident(
            d[0],
        ) by {
            assert(all[i] == st.details[i]);
            assert(all[st.details.len() as int] == d[0]);
            assert(spec_item_ident(all[i]) != spec_item_ident(all[st.details.len() as int]));
        }
        lemma_find_details_absent(st.details, spec_item_ident(d[0]));
        lemma_upsert_details_absent_is_push(st.details, d[0]);
        let st1 = StoreV { details: st.details.push(d[0]), readmes: st.readmes };
        assert(items[0] == ItemV::Repo(d[0]));
        assert(spec_import_one(st, items[0]) == st1);
        assert(items.drop_first() =~= Seq::new(
            d.drop_first().len(),
            |i: int| ItemV::Repo(d.drop_first()[i]),
        ));
        assert(st1.details + d.drop_first() =~= st.details + d);
        lemma_import_details_batch(st1, d.drop_first());
        assert(spec_import(st, items) == spec_import(st1, items.drop_first()));
    }
}

/// Importing list documents whose repositories are all new appends them in
/// order and leaves the metadata records alone.
proof fn lemma_import_readme_batch(st: StoreV, r: Seq<ReadmeRepoV>)
    requires
        readmes_unique(st.readmes + r),
    ensures
        spec_import(st, Seq::new(r.len(), |i: int| ItemV::ReadmeRepo(r[i]))) == (StoreV {
            details: st.details,
            readmes: st.readmes + r,
        }),
    decreases r.len(),
{
    let items = Seq::new(r.len(), |i: int| ItemV::ReadmeRepo(r[i]));
    if r.len() == 0 {
        assert(st.readmes + r =~= st.readmes);
        assert(spec_import(st, items) =~= (StoreV { details: st.details, readmes: st.readmes + r }));
    } else {
        let all = st.readmes + r;
        assert forall|i: int|
            0 <= i < st.readmes.len() implies st.readmes[i].details.ident != r[0].details.ident by {
            assert(all[i] == st.readmes[i]);
            assert(all[st.readmes.len() as int] == r[0]);
            assert(all[i].details.ident != all[st.readmes.len() as int].details.ident);
        }
        lemma_find_readme_absent(st.readmes, r[0].details.ident);
        lemma_upsert_readme_absent_is_push(st.readmes, r[0]);
        let st1 = StoreV { details: st.details, readmes: st.readmes.push(r[0]) };
        assert(items[0] == ItemV::ReadmeRepo(r[0]));
        assert(spec_import_one(st, items[0]) == st1);
        assert(items.drop_first() =~= Seq::new(
            r.drop_first().len(),
            |i: int| ItemV::ReadmeRepo(r.drop_first()[i]),
        ));
        assert(st1.readmes + r.drop_first() =~= st.readmes + r);
        lemma_import_readme_batch(st1, r.drop_first());
        assert(spec_import(st, items) == spec_import(st1, items.drop_first()));
    }
}

/// Law: exporting a store and importing the batch into an empty store
/// reproduces the record set exactly.
pub proof fn lemma_export_import_roundtrip(st: StoreV)
    requires
        store_wf(st),
    ensures
        spec_import(
            StoreV { details: Seq::empty(), readmes: Seq::empty() },
            spec_export(st),
        ) == st,
{
    let empty = StoreV { details: Seq::empty(), readmes: Seq::empty() };
    let dmap = Seq::new(st.details.len(), |i: int| ItemV::Repo(st.details[i]));
    let rmap = Seq::new(st.readmes.len(), |i: int| ItemV::ReadmeRepo(st.readmes[i]));
    lemma_import_append(empty, dmap, rmap);
    assert(Seq::<DetailsItemV>::empty() + st.details =~= st.details);
    assert(details_unique(Seq::<DetailsItemV>::empty() + st.details));
    lemma_import_details_batch(empty, st.details);
    let mid = StoreV { details: st.details, readmes: Seq::empty() };
    assert(spec_import(empty, dmap) == (StoreV {
        details: Seq::<DetailsItemV>::empty() + st.details,
        readmes: Seq::empty(),
    }));
    assert(spec_import(empty, dmap) =~= mid);
    assert(Seq::<ReadmeRepoV>::empty() + st.readmes =~= st.readmes);
    assert(readmes_unique(Seq::<ReadmeRepoV>::empty() + st.readmes));
    lemma_import_readme_batch(mid, st.readmes);
    assert(spec_import(mid, rmap) =~= st);
}

/// Law: importing a metadata snapshot that is not newer than the snapshot
/// the store already holds for that repository changes nothing.
pub proof fn lemma_import_older_found_is_noop(st: StoreV, d: DetailsV, o: DetailsV)
    requires
        spec_find_details(st.details, d.ident) == Some(DetailsItemV::Found(o)),
        o.updated_at >= d.updated_at,
    ensures
        spec_import(st, seq![ItemV::Repo(DetailsItemV::Found(d))]) == st,
{
    let items = seq![ItemV::Repo(DetailsItemV::Found(d))];
    assert(items[0] == ItemV::Repo(DetailsItemV::Found(d)));
    assert(spec_item_ident(DetailsItemV::Found(d)) == d.ident);
    assert(!spec_should_replace_details(
        DetailsItemV::Found(d),
        spec_find_details(st.details, d.ident),
    ));
    let st1 = spec_import_one(st, items[0]);
    assert(st1 == st);
    assert(items.drop_first() =~= Seq::<ItemV>::empty());
    assert(spec_import(st1, items.drop_first()) == st1);
    assert(spec_import(st, items) == spec_import(st1, items.drop_first()));
}

/// Law: importing a metadata snapshot over a stored not-found fact always
/// replaces the fact, whatever the timestamps say.
pub proof fn lemma_import_found_replaces_not_found(st: StoreV, d: DetailsV)
    requires
        store_wf(st),
        spec_find_details(st.details, d.ident) matches Some(old) && old is NotFound,
    ensures
        spec_find_details(
            spec_import(st, seq![ItemV::Repo(DetailsItemV::Found(d))]).details,
            d.ident,
        ) == Some(DetailsItemV::Found(d)),
{
    let items = seq![ItemV::Repo(DetailsItemV::Found(d))];
    assert(items[0] == ItemV::Repo(DetailsItemV::Found(d)));
    assert(spec_item_ident(DetailsItemV::Found(d)) == d.ident);
    assert(spec_should_replace_details(
        DetailsItemV::Found(d),
        spec_find_details(st.details, d.ident),
    ));
    lemma_upsert_details_props(st.details, DetailsItemV::Found(d));
    let st1 = spec_import_one(st, items[0]);
    assert(st1.details == spec_upsert_details(st.details, DetailsItemV::Found(d)));
    assert(items.drop_first() =~= Seq::<ItemV>::empty());
    assert(spec_import(st1, items.drop_first()) == st1);
    assert(spec_import(st, items) == spec_import(st1, items.drop_first()));
}

/// Identifies one repository's files within the store's directory layout.
/// Metadata records live under `repo_details/`, list documents under
/// `readme_repo/`, one JSON file per record, named by the record's
/// identifier.
#[derive(Debug)]
pub struct FsStore {
    pub root: String,
}

impl Clone for FsStore {
    fn clone(&self) -> (r: Self)
        ensures
            r@ == self@,
    {
        FsStore { root: self.root.clone() }
    }
}

/// Mathematical value of an `FsStore`: its root directory.
#[verifier::ext_equal]
pub ghost struct FsStoreV {
    pub root: Seq<char>,
}

impl View for FsStore {
    type V = FsStoreV;

    open spec fn view(&self) -> FsStoreV {
        FsStoreV { root: self.root@ }
    }
}

/// The file name of one repository's records.
pub open spec fn spec_storage_name(id: IdentV) -> Seq<char> {
    spec_source_name(id.source) + ":"@ + id.owner + ":"@ + id.repo + ".json"@
}

impl FsStore {
    /// The directory that metadata records live under.
    pub fn repo_details_dir(&self) -> (r: String)
        ensures
            r@ == self.root@ + "/repo_details"@,
    {
        let mut s = self.root.clone();
        s.append("/repo_details");
        s
    }

    /// The file name of one repository's records:
    /// `<source>:<owner>:<repo>.json`.
    pub fn ident_to_storage_name(ident: &RepoIdent) -> (r: String)
        ensures
            r@ == spec_storage_name(ident@),
    {
        let mut s = String::new();
        s.append(ident.source.as_str());
        s.append(":");
        s.append(ident.owner.as_str());
        s.append(":");
        s.append(ident.repo.as_str());
        s.append(".json");
        s
    }

    /// The path of one repository's metadata record.
    pub fn repo_details_path(&self, ident: &RepoIdent) -> (r: String)
        ensures
            r@ == self.root@ + "/repo_details"@ + "/"@ + spec_storage_name(ident@),
    {
        let mut s = self.repo_details_dir();
        s.append("/");
        let name = Self::ident_to_storage_name(ident);
        s.append(name.as_str());
        s
    }

    /// The directory that list documents live under.
    pub fn readme_repo_dir(&self) -> (r: String)
        ensures
            r@ == self.root@ + "/readme_repo"@,
    {
        let mut s = self.root.clone();
        s.append("/readme_repo");
        s
    }

    /// The path of one repository's list document.
    pub fn readme_repo_path(&self, ident: &RepoIdent) -> (r: String)
        ensures
            r@ == self.root@ + "/readme_repo"@ + "/"@ + spec_storage_name(ident@),
    {
        let mut s = self.readme_repo_dir();
        s.append("/");
        let name = Self::ident_to_storage_name(ident);
        s.append(name.as_str());
        s
    }
}

/// The storage backends this library knows. The filesystem backend's I/O
/// belongs to the caller; the verified merge policy and paths are here.
#[derive(Debug)]
pub enum Store {
    Fs(FsStore),
}

impl Clone for Store {
    fn clone(&self) -> (r: Self)
        ensures
            r == *self || match (self, &r) {
                (Store::Fs(a), Store::Fs(b)) => a@ == b@,
            },
    {
        match self {
            Store::Fs(fs) => Store::Fs(fs.clone()),
        }
    }
}

impl From<FsStore> for Store {
    fn from(fs: FsStore) -> (r: Self) {
        Store::Fs(fs)
    }
}

impl vstd::std_specs::convert::FromSpecImpl<FsStore> for Store {
    open spec fn obeys_from_spec() -> bool {
        true
    }

    open spec fn from_spec(fs: FsStore) -> Self {
        Store::Fs(fs)
    }
}

} // verus!
