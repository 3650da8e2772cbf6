//! The command store: categories in insertion order, each owning an ordered
//! list of (alias, text) entries.  Category names are unique, and aliases are
//! unique within their category.  The order is part of the store's meaning:
//! the interactive session navigates by positional index.

use vstd::prelude::*;

verus! {

/// One stored command: an alias naming a piece of shell text.
pub struct CommandEntry {
    pub alias: String,
    pub text: String,
}

/// A named category and its entries, in insertion order.
pub struct Category {
    pub name: String,
    pub entries: Vec<CommandEntry>,
}

/// Mathematical model of one entry.
#[verifier::ext_equal]
pub struct EntryModel {
    pub alias: Seq<char>,
    pub text: Seq<char>,
}

/// Mathematical model of one category.
#[verifier::ext_equal]
pub struct CategoryModel {
    pub name: Seq<char>,
    pub entries: Seq<EntryModel>,
}

impl View for CommandEntry {
    type V = EntryModel;

    open spec fn view(&self) -> EntryModel {
        EntryModel { alias: self.alias@, text: self.text@ }
    }
}

impl View for Category {
    type V = CategoryModel;

    open spec fn view(&self) -> CategoryModel {
        CategoryModel {
            name: self.name@,
            entries: self.entries@.map_values(|e: CommandEntry| e@),
        }
    }
}

/// Index of the first category called `name`, or `cats.len()` if there is none.
pub open spec fn cat_index(cats: Seq<CategoryModel>, name: Seq<char>) -> int
    decreases cats.len(),
{
    if cats.len() == 0 {
        0
    } else if cats[0].name == name {
        0
    } else {
        1 + cat_index(cats.drop_first(), name)
    }
}

/// Index of the first entry with `alias`, or `entries.len()` if there is none.
pub open spec fn entry_index(entries: Seq<EntryModel>, alias: Seq<char>) -> int
    decreases entries.len(),
{
    if entries.len() == 0 {
        0
    } else if entries[0].alias == alias {
        0
    } else {
        1 + entry_index(entries.drop_first(), alias)
    }
}

pub open spec fn spec_has_category(cats: Seq<CategoryModel>, name: Seq<char>) -> bool {
    cat_index(cats, name) < cats.len()
}

/// The text stored under `alias` in category `cat`, if both exist.
pub open spec fn spec_lookup(
    cats: Seq<CategoryModel>,
    cat: Seq<char>,
    alias: Seq<char>,
) -> Option<Seq<char>> {
    let i = cat_index(cats, cat);
    if i < cats.len() {
        let es = cats[i].entries;
        let j = entry_index(es, alias);
        if j < es.len() {
            Some(es[j].text)
        } else {
            None
        }
    } else {
        None
    }
}

/// Whether category `cat` exists and holds an entry called `alias`.
/// A missing category counts as "no".
pub open spec fn spec_has_alias(
    cats: Seq<CategoryModel>,
    cat: Seq<char>,
    alias: Seq<char>,
) -> bool {
    spec_lookup(cats, cat, alias) is Some
}

/// `cat_index` names the first matching position: it is in bounds exactly when
/// a match exists, it matches when in bounds, and nothing before it matches.
pub proof fn lemma_cat_index(cats: Seq<CategoryModel>, name: Seq<char>)
    ensures
        0 <= cat_index(cats, name) <= cats.len(),
        cat_index(cats, name) < cats.len() ==> cats[cat_index(cats, name)].name == name,
        forall|j: int|
            0 <= j < cat_index(cats, name) && j < cats.len() ==> cats[j].name != name,
    decreases cats.len(),
{
    if cats.len() == 0 {
    } else if cats[0].name == name {
    } else {
        lemma_cat_index(cats.drop_first(), name);
        assert forall|j: int|
            0 <= j < cat_index(cats, name) && j < cats.len() implies cats[j].name != name by {
            if j > 0 {
                assert(cats.drop_first()[j - 1] == cats[j]);
            }
        }
    }
}

/// The counterpart of `lemma_cat_index` for entries within one category.
pub proof fn lemma_entry_index(entries: Seq<EntryModel>, alias: Seq<char>)
    ensures
        0 <= entry_index(entries, alias) <= entries.len(),
        entry_index(entries, alias) < entries.len() ==> entries[entry_index(
            entries,
            alias,
        )].alias == alias,
        forall|j: int|
            0 <= j < entry_index(entries, alias) && j < entries.len() ==> entries[j].alias
                != alias,
    decreases entries.len(),
{
    if entries.len() == 0 {
    } else if entries[0].alias == alias {
    } else {
        lemma_entry_index(entries.drop_first(), alias);
        assert forall|j: int|
            0 <= j < entry_index(entries, alias) && j < entries.len() implies entries[j].alias
            != alias by {
            if j > 0 {
                assert(entries.drop_first()[j - 1] == entries[j]);
            }
        }
    }
}

/// A position that matches, with no earlier match, is where `cat_index` points.
pub proof fn lemma_cat_index_is(cats: Seq<CategoryModel>, name: Seq<char>, i: int)
    requires
        0 <= i < cats.len(),
        cats[i].name == name,
        forall|j: int| 0 <= j < i ==> cats[j].name != name,
    ensures
        cat_index(cats, name) == i,
{
    lemma_cat_index(cats, name);
}

/// When no category matches, `cat_index` is the length.
pub proof fn lemma_cat_index_absent(cats: Seq<CategoryModel>, name: Seq<char>)
    requires
        forall|j: int| 0 <= j < cats.len() ==> cats[j].name != name,
    ensures
        cat_index(cats, name) == cats.len(),
{
    lemma_cat_index(cats, name);
}

/// The counterpart of `lemma_cat_index_is` for entries.
pub proof fn lemma_entry_index_is(entries: Seq<EntryModel>, alias: Seq<char>, j: int)
    requires
        0 <= j < entries.len(),
        entries[j].alias == alias,
        forall|k: int| 0 <= k < j ==> entries[k].alias != alias,
    ensures
        entry_index(entries, alias) == j,
{
    lemma_entry_index(entries, alias);
}

/// When no entry matches, `entry_index` is the length.
pub proof fn lemma_entry_index_absent(entries: Seq<EntryModel>, alias: Seq<char>)
    requires
        forall|k: int| 0 <= k < entries.len() ==> entries[k].alias != alias,
    ensures
        entry_index(entries, alias) == entries.len(),
{
    lemma_entry_index(entries, alias);
}

pub open spec fn unique_aliases(entries: Seq<EntryModel>) -> bool {
    forall|a: int, b: int|
        0 <= a < b < entries.len() ==> entries[a].alias != entries[b].alias
}

/// The store after `text` is stored under `alias` in category `cat`: the
/// category is appended when absent, the alias overwritten when taken,
/// appended otherwise.
pub open spec fn spec_upsert(
    cats: Seq<CategoryModel>,
    cat: Seq<char>,
    alias: Seq<char>,
    text: Seq<char>,
) -> Seq<CategoryModel> {
    let em = EntryModel { alias: alias, text: text };
    if !spec_has_category(cats, cat) {
        cats.push(CategoryModel { name: cat, entries: seq![em] })
    } else {
        let i = cat_index(cats, cat);
        let es = cats[i].entries;
        let j = entry_index(es, alias);
        if j < es.len() {
            cats.update(i, CategoryModel { name: cat, entries: es.update(j, em) })
        } else {
            cats.update(i, CategoryModel { name: cat, entries: es.push(em) })
        }
    }
}

/// What a non-overwriting add did: a duplicate alias is rejected, otherwise
/// the entry is stored, creating its category first when needed.
pub enum AddOutcome {
    Added { category_created: bool },
    AliasTaken,
}

/// What an upsert did: an existing alias is overwritten, otherwise the entry
/// is stored, creating its category first when needed.
pub enum UpsertOutcome {
    Updated,
    Added { category_created: bool },
}

/// What resolving (category, alias) to a runnable text found.  The two miss
/// cases are reported to the user and nothing runs.
pub enum ResolveOutcome {
    UnknownCategory,
    UnknownAlias,
    Found(String),
}

/// The in-memory command store, the working copy of the persisted file.
pub struct Store {
    pub categories: Vec<Category>,
}

impl View for Store {
    type V = Seq<CategoryModel>;

    open spec fn view(&self) -> Seq<CategoryModel> {
        self.categories@.map_values(|c: Category| c@)
    }
}

impl Store {
    /// No duplicate category names, no duplicate alias within a category.
    pub open spec fn wf(self) -> bool {
        &&& forall|i: int, j: int|
            0 <= i < j < self@.len() ==> self@[i].name != self@[j].name
        &&& forall|i: int| 0 <= i < self@.len() ==> unique_aliases(#[trigger] self@[i].entries)
    }

    /// An empty store.
    pub fn new() -> (s: Store)
        ensures
            s@ == Seq::<CategoryModel>::empty(),
            s.wf(),
    {
        let s = Store { categories: Vec::new() };
        proof {
            assert(s@ =~= Seq::<CategoryModel>::empty());
        }
        s
    }

    /// Position of the category called `name`, if present.
    fn find_category(&self, name: &String) -> (r: Option<usize>)
        ensures
            match r {
                Some(i) => i == cat_index(self@, name@) && i < self@.len(),
                None => cat_index(self@, name@) == self@.len(),
            },
    {
        proof {
            lemma_cat_index(self@, name@);
        }
        let mut i: usize = 0;
        while i < self.categories.len()
            invariant
                i <= self.categories.len(),
                self@.len() == self.categories.len(),
                forall|j: int| 0 <= j < i ==> self@[j].name != name@,
                0 <= cat_index(self@, name@) <= self@.len(),
                cat_index(self@, name@) < self@.len() ==> self@[cat_index(
                    self@,
                    name@,
                )].name == name@,
                forall|j: int|
                    0 <= j < cat_index(self@, name@) && j < self@.len() ==> self@[j].name
                        != name@,
            decreases self.categories.len() - i,
        {
            if self.categories[i].name == *name {
                proof {
                    assert(self@[i as int] == self.categories@[i as int]@);
                    assert(self@[i as int].name == name@);
                }
                return Some(i);
            }
            i += 1;
        }
        None
    }

    /// Position of `alias` within the category at `cat_pos`, if present.
    fn find_entry(&self, cat_pos: usize, alias: &String) -> (r: Option<usize>)
        requires
            cat_pos < self@.len(),
        ensures
            match r {
                Some(j) => j == entry_index(self@[cat_pos as int].entries, alias@) && j
                    < self@[cat_pos as int].entries.len(),
                None => entry_index(self@[cat_pos as int].entries, alias@)
                    == self@[cat_pos as int].entries.len(),
            },
    {
        proof {
            lemma_entry_index(self@[cat_pos as int].entries, alias@);
        }
        let entries = &self.categories[cat_pos].entries;
        let ghost es = self@[cat_pos as int].entries;
        let mut j: usize = 0;
        while j < entries.len()
            invariant
                j <= entries.len(),
                es == self@[cat_pos as int].entries,
                cat_pos < self@.len(),
                es.len() == entries.len(),
                forall|k: int| 0 <= k < es.len() ==> es[k] == entries@[k]@,
                forall|k: int| 0 <= k < j ==> es[k].alias != alias@,
                0 <= entry_index(es, alias@) <= es.len(),
                entry_index(es, alias@) < es.len() ==> es[entry_index(es, alias@)].alias
                    == alias@,
                forall|k: int|
                    0 <= k < entry_index(es, alias@) && k < es.len() ==> es[k].alias != alias@,
            decreases entries.len() - j,
        {
            if entries[j].alias == *alias {
                proof {
                    assert(es[j as int] == entries@[j as int]@);
                    assert(es[j as int].alias == alias@);
                }
                return Some(j);
            }
            j += 1;
        }
        None
    }

    /// Whether a category called `name` exists.
    pub fn has_category(&self, name: &String) -> (r: bool)
        ensures
            r == spec_has_category(self@, name@),
    {
        self.find_category(name).is_some()
    }

    /// Whether `cat` exists and holds an entry called `alias`.
    pub fn has_alias(&self, cat: &String, alias: &String) -> (r: bool)
        ensures
            r == spec_has_alias(self@, cat@, alias@),
    {
        match self.find_category(cat) {
            Some(i) => self.find_entry(i, alias).is_some(),
            None => false,
        }
    }

    /// The text stored under `alias` in `cat`, if both exist.
    pub fn lookup(&self, cat: &String, alias: &String) -> (r: Option<String>)
        ensures
            r is Some <==> spec_lookup(self@, cat@, alias@) is Some,
            r matches Some(t) ==> spec_lookup(self@, cat@, alias@) == Some(t@),
    {
        match self.find_category(cat) {
            Some(i) => match self.find_entry(i, alias) {
                Some(j) => Some(self.categories[i].entries[j].text.clone()),
                None => None,
            },
            None => None,
        }
    }

    /// How many categories the store holds.
    pub fn num_categories(&self) -> (n: usize)
        ensures
            n == self@.len(),
    {
        self.categories.len()
    }

    /// The name of the category at position `i`.
    pub fn category_name(&self, i: usize) -> (r: &String)
        requires
            i < self@.len(),
        ensures
            r@ == self@[i as int].name,
    {
        &self.categories[i].name
    }

    /// How many entries the category at position `i` holds.
    pub fn num_commands(&self, i: usize) -> (n: usize)
        requires
            i < self@.len(),
        ensures
            n == self@[i as int].entries.len(),
    {
        self.categories[i].entries.len()
    }

    /// The alias of the entry at position `j` of the category at position `i`.
    pub fn command_alias(&self, i: usize, j: usize) -> (r: &String)
        requires
            i < self@.len(),
            j < self@[i as int].entries.len(),
        ensures
            r@ == self@[i as int].entries[j as int].alias,
    {
        &self.categories[i].entries[j].alias
    }

    /// Adds an empty category called `name`.  A no-op when the name is
    /// already taken: then nothing changes and no persist is owed.
    pub fn add_category(&mut self, name: &String) -> (changed: bool)
        requires
            old(self).wf(),
        ensures
            final(self).wf(),
            changed == !spec_has_category(old(self)@, name@),
            !changed ==> *final(self) == *old(self),
            changed ==> final(self)@ == old(self)@.push(
                (CategoryModel { name: name@, entries: Seq::<EntryModel>::empty() }),
            ),
            spec_has_category(final(self)@, name@),
    {
        match self.find_category(name) {
            Some(_) => false,
            None => {
                let ghost oldv = self@;
                proof {
                    lemma_cat_index(oldv, name@);
                }
                self.categories.push(Category { name: name.clone(), entries: Vec::new() });
                proof {
                    let target = CategoryModel { name: name@, entries: Seq::<EntryModel>::empty() };
                    assert(self@ =~~= oldv.push(target));
                    lemma_cat_index_is(self@, name@, oldv.len() as int);
                    assert(self.wf());
                }
                true
            },
        }
    }

    /// Removes the category called `name` together with all its entries.
    /// Afterwards no alias at all is reachable under that name.
    pub fn remove_category(&mut self, name: &String) -> (changed: bool)
        requires
            old(self).wf(),
        ensures
            final(self).wf(),
            changed == spec_has_category(old(self)@, name@),
            !changed ==> *final(self) == *old(self),
            changed ==> final(self)@ == old(self)@.remove(cat_index(old(self)@, name@)),
            !spec_has_category(final(self)@, name@),
            forall|a: Seq<char>| !spec_has_alias(final(self)@, name@, a),
    {
        match self.find_category(name) {
            Some(i) => {
                let ghost oldv = self@;
                proof {
                    lemma_cat_index(oldv, name@);
                    oldv.remove_ensures(i as int);
                    old(self).categories@.remove_ensures(i as int);
                }
                self.categories.remove(i);
                proof {
                    assert forall|k: int| 0 <= k < self@.len() implies self@[k] == oldv.remove(
                        i as int,
                    )[k] by {
                        if k < i {
                            assert(self.categories@[k] == old(self).categories@[k]);
                        } else {
                            assert(self.categories@[k] == old(self).categories@[k + 1]);
                        }
                    }
                    assert(self@ =~= oldv.remove(i as int));
                    assert forall|k: int| 0 <= k < self@.len() implies self@[k].name != name@ by {
                        if k < i {
                        } else {
                            assert(self@[k] == oldv[k + 1]);
                        }
                    }
                    lemma_cat_index_absent(self@, name@);
                    assert(self.wf());
                }
                true
            },
            None => false,
        }
    }

    /// Stores `text` under `alias` in category `cat`, creating the category
    /// first when it is absent and overwriting the alias when it is taken.
    /// The caller owes a persist in every case.
    pub fn add_or_update_command(&mut self, cat: &String, alias: &String, text: &String)
        requires
            old(self).wf(),
        ensures
            final(self).wf(),
            spec_lookup(final(self)@, cat@, alias@) == Some(text@),
            spec_has_category(final(self)@, cat@),
            final(self)@ == spec_upsert(old(self)@, cat@, alias@, text@),
    {
        let ghost oldv = self@;
        let ghost em = EntryModel { alias: alias@, text: text@ };
        match self.find_category(cat) {
            None => {
                proof {
                    lemma_cat_index(oldv, cat@);
                }
                let mut entries: Vec<CommandEntry> = Vec::new();
                entries.push(CommandEntry { alias: alias.clone(), text: text.clone() });
                self.categories.push(Category { name: cat.clone(), entries });
                proof {
                    let target = CategoryModel { name: cat@, entries: seq![em] };
                    assert(self@ =~~= oldv.push(target));
                    lemma_cat_index_is(self@, cat@, oldv.len() as int);
                    assert(spec_lookup(self@, cat@, alias@) == Some(text@));
                    assert(self.wf());
                }
            },
            Some(i) => {
                proof {
                    lemma_cat_index(oldv, cat@);
                }
                match self.find_entry(i, alias) {
                    None => {
                        proof {
                            lemma_entry_index(oldv[i as int].entries, alias@);
                        }
                        self.categories[i].entries.push(
                            CommandEntry { alias: alias.clone(), text: text.clone() },
                        );
                        proof {
                            let newcat = CategoryModel {
                                name: cat@,
                                entries: oldv[i as int].entries.push(em),
                            };
                            assert(self@ =~~= oldv.update(i as int, newcat));
                            assert forall|k: int| 0 <= k < self@.len() implies #[trigger] self@[
                                k
                            ].name == oldv[k].name by {}
                            lemma_cat_index_is(self@, cat@, i as int);
                            lemma_entry_index_is(
                                newcat.entries,
                                alias@,
                                oldv[i as int].entries.len() as int,
                            );
                            assert(spec_lookup(self@, cat@, alias@) == Some(text@));
                            assert(self.wf());
                        }
                    },
                    Some(j) => {
                        self.categories[i].entries[j] = CommandEntry {
                            alias: alias.clone(),
                            text: text.clone(),
                        };
                        proof {
                            lemma_entry_index(oldv[i as int].entries, alias@);
                            let newcat = CategoryModel {
                                name: cat@,
                                entries: oldv[i as int].entries.update(j as int, em),
                            };
                            assert(self@ =~~= oldv.update(i as int, newcat));
                            assert forall|k: int| 0 <= k < self@.len() implies #[trigger] self@[
                                k
                            ].name == oldv[k].name by {}
                            lemma_cat_index_is(self@, cat@, i as int);
                            lemma_entry_index_is(newcat.entries, alias@, j as int);
                            assert(spec_lookup(self@, cat@, alias@) == Some(text@));
                            assert(self.wf());
                        }
                    },
                }
            },
        }
    }

    /// Removes the entry called `alias` from category `cat`, leaving the
    /// category itself in place.  A persist is owed only when a removal
    /// happened.
    pub fn remove_command(&mut self, cat: &String, alias: &String) -> (changed: bool)
        requires
            old(self).wf(),
        ensures
            final(self).wf(),
            changed == spec_has_alias(old(self)@, cat@, alias@),
            !changed ==> *final(self) == *old(self),
            changed ==> final(self)@ == old(self)@.update(
                cat_index(old(self)@, cat@),
                (CategoryModel {
                    name: cat@,
                    entries: old(self)@[cat_index(old(self)@, cat@)].entries.remove(
                        entry_index(old(self)@[cat_index(old(self)@, cat@)].entries, alias@),
                    ),
                }),
            ),
            !spec_has_alias(final(self)@, cat@, alias@),
    {
        let ghost oldv = self@;
        match self.find_category(cat) {
            Some(i) => match self.find_entry(i, alias) {
                Some(j) => {
                    proof {
                        lemma_cat_index(oldv, cat@);
                        lemma_entry_index(oldv[i as int].entries, alias@);
                        oldv[i as int].entries.remove_ensures(j as int);
                        old(self).categories@[i as int].entries@.remove_ensures(j as int);
                    }
                    self.categories[i].entries.remove(j);
                    proof {
                        let es = oldv[i as int].entries.remove(j as int);
                        let newcat = CategoryModel { name: cat@, entries: es };
                        assert forall|k: int|
                            0 <= k < es.len() implies self@[i as int].entries[k] == es[k] by {
                            if k < j {
                                assert(self.categories@[i as int].entries@[k]
                                    == old(self).categories@[i as int].entries@[k]);
                            } else {
                                assert(self.categories@[i as int].entries@[k]
                                    == old(self).categories@[i as int].entries@[k + 1]);
                            }
                        }
                        assert(self@ =~~= oldv.update(i as int, newcat));
                        assert forall|k: int| 0 <= k < self@.len() implies #[trigger] self@[
                            k
                        ].name == oldv[k].name by {}
                        lemma_cat_index_is(self@, cat@, i as int);
                        assert forall|k: int| 0 <= k < es.len() implies es[k].alias != alias@ by {
                            if k < j {
                            } else {
                                assert(es[k] == oldv[i as int].entries[k + 1]);
                            }
                        }
                        lemma_entry_index_absent(es, alias@);
                        assert(self.wf());
                    }
                    true
                },
                None => false,
            },
            None => false,
        }
    }

    /// The scripted `add`: refuses to overwrite an existing alias, and owes a
    /// persist exactly when something was stored.
    pub fn add_new_command(&mut self, cat: &String, alias: &String, text: &String) -> (r:
        AddOutcome)
        requires
            old(self).wf(),
        ensures
            final(self).wf(),
            (r is AliasTaken) == spec_has_alias(old(self)@, cat@, alias@),
            r is AliasTaken ==> *final(self) == *old(self),
            r matches AddOutcome::Added { category_created } ==> category_created
                == !spec_has_category(old(self)@, cat@) && final(self)@ == spec_upsert(
                old(self)@,
                cat@,
                alias@,
                text@,
            ) && spec_lookup(final(self)@, cat@, alias@) == Some(text@),
    {
        if self.has_alias(cat, alias) {
            AddOutcome::AliasTaken
        } else {
            let created = !self.has_category(cat);
            self.add_or_update_command(cat, alias, text);
            AddOutcome::Added { category_created: created }
        }
    }

    /// The scripted `update`: overwrites an existing alias, and otherwise
    /// behaves as the scripted `add`.  A persist is owed in every case.
    pub fn upsert_command(&mut self, cat: &String, alias: &String, text: &String) -> (r:
        UpsertOutcome)
        requires
            old(self).wf(),
        ensures
            final(self).wf(),
            (r is Updated) == spec_has_alias(old(self)@, cat@, alias@),
            r matches UpsertOutcome::Added { category_created } ==> category_created
                == !spec_has_category(old(self)@, cat@),
            final(self)@ == spec_upsert(old(self)@, cat@, alias@, text@),
            spec_lookup(final(self)@, cat@, alias@) == Some(text@),
    {
        let existed = self.has_alias(cat, alias);
        let created = !self.has_category(cat);
        self.add_or_update_command(cat, alias, text);
        if existed {
            UpsertOutcome::Updated
        } else {
            UpsertOutcome::Added { category_created: created }
        }
    }

    /// The scripted `run`'s lookup: names the missing piece, or hands back
    /// the stored text.
    pub fn resolve(&self, cat: &String, alias: &String) -> (r: ResolveOutcome)
        ensures
            (r is UnknownCategory) == !spec_has_category(self@, cat@),
            (r is UnknownAlias) == (spec_has_category(self@, cat@) && !spec_has_alias(
                self@,
                cat@,
                alias@,
            )),
            r matches ResolveOutcome::Found(t) ==> spec_lookup(self@, cat@, alias@) == Some(t@),
            (r is Found) == spec_has_alias(self@, cat@, alias@),
    {
        match self.find_category(cat) {
            None => ResolveOutcome::UnknownCategory,
            Some(i) => match self.find_entry(i, alias) {
                None => ResolveOutcome::UnknownAlias,
                Some(j) => ResolveOutcome::Found(self.categories[i].entries[j].text.clone()),
            },
        }
    }

    /// The text of the entry at position `j` of the category at position `i`.
    pub fn command_text(&self, i: usize, j: usize) -> (r: &String)
        requires
            i < self@.len(),
            j < self@[i as int].entries.len(),
        ensures
            r@ == self@[i as int].entries[j as int].text,
    {
        &self.categories[i].entries[j].text
    }
}

} // verus!
