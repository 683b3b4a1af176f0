//! Memory facts: their validation, redaction and normalization, which scope a fact is
//! stored in, and how the user and workspace scopes combine.
//!
//! The fact stores live on disk at the caller, which hands in the facts a scope holds and
//! stores the fact (or deletes the ids) that an operation asks for.

use vstd::prelude::*;

use crate::errors::{is_error, AlfredError, ErrorKind};
use crate::redaction::Redactor;
use crate::services::job_manager::reversed;
use crate::text::{
    chars_eq, chars_lt, chars_of, concat2, insert_sorted_unique, lemma_seq_lt_total,
    lemma_seq_lt_transitive, seq_lt, str_eq, string_views, strictly_sorted, trim_spec, trim_str,
};

verus! {

broadcast use vstd::string::group_string_axioms;

/// Input shape for memory fact upserts.
#[derive(Debug)]
pub struct MemoryFactInput {
    pub id: String,
    pub subject: String,
    pub fact: String,
    pub citations: String,
    pub reason: String,
    pub category: String,
    pub tags: Vec<String>,
}

/// Stored memory fact shape.
#[derive(Debug)]
pub struct MemoryFact {
    pub id: String,
    pub subject: String,
    pub fact: String,
    pub citations: String,
    pub reason: String,
    pub category: String,
    pub tags: Vec<String>,
    pub created_at: String,
    pub updated_at: String,
}

/// Logical storage scopes for persisted memories.
#[derive(Debug, Clone, Copy, PartialEq, Eq, Structural)]
pub enum MemoryScope {
    User,
    Workspace,
}

/// Memory fact annotated with its storage scope.
#[derive(Debug)]
pub struct ScopedMemoryFact {
    pub scope: MemoryScope,
    pub fact: MemoryFact,
}

// ---------------------------------------------------------------------------
// Validation and normalization
// ---------------------------------------------------------------------------

/// A text that is empty once trimmed.
pub open spec fn blank(s: Seq<char>) -> bool {
    trim_spec(s).len() == 0
}

/// The message for a required field left blank.
pub open spec fn empty_field_text(field: Seq<char>) -> Seq<char> {
    field + " must not be empty"@
}

/// Refuses a blank value of a required field.
pub fn validate_non_empty(value: &str, field: &str) -> (r: Result<(), AlfredError>)
    ensures
        blank(value@) ==> r is Err && is_error(r->Err_0, ErrorKind::InvalidArgument, empty_field_text(field@)),
        !blank(value@) ==> r is Ok,
{
    let t = trim_str(value);
    if t.as_str().is_empty() {
        return Err(AlfredError::InvalidArgument(concat2(field, " must not be empty")));
    }
    Ok(())
}

/// Refuses a blank fact id.
pub fn validate_id(id: &str) -> (r: Result<(), AlfredError>)
    ensures
        blank(id@) ==> r is Err && is_error(r->Err_0, ErrorKind::InvalidArgument, empty_field_text("id"@)),
        !blank(id@) ==> r is Ok,
{
    validate_non_empty(id, "id")
}

/// The first required field of an input that is blank, in the order id, subject, fact,
/// citations, reason, category.
pub open spec fn input_problem(input: MemoryFactInput) -> Option<Seq<char>> {
    if blank(input.id@) {
        Some("id"@)
    } else if blank(input.subject@) {
        Some("subject"@)
    } else if blank(input.fact@) {
        Some("fact"@)
    } else if blank(input.citations@) {
        Some("citations"@)
    } else if blank(input.reason@) {
        Some("reason"@)
    } else if blank(input.category@) {
        Some("category"@)
    } else {
        None
    }
}

/// Refuses an input with a blank required field, naming the first one.
pub fn validate_input(input: &MemoryFactInput) -> (r: Result<(), AlfredError>)
    ensures
        match input_problem(*input) {
            Some(field) => r is Err && is_error(r->Err_0, ErrorKind::InvalidArgument, empty_field_text(field)),
            None => r is Ok,
        },
{
    validate_non_empty(input.id.as_str(), "id")?;
    validate_non_empty(input.subject.as_str(), "subject")?;
    validate_non_empty(input.fact.as_str(), "fact")?;
    validate_non_empty(input.citations.as_str(), "citations")?;
    validate_non_empty(input.reason.as_str(), "reason")?;
    validate_non_empty(input.category.as_str(), "category")
}

/// The trimmed, non-empty tags of a list.
pub open spec fn kept_tags(tags: Seq<Seq<char>>) -> Set<Seq<char>>
    decreases tags.len(),
{
    if tags.len() == 0 {
        Set::empty()
    } else {
        let rest = kept_tags(tags.drop_last());
        let t = trim_spec(tags.last());
        if t.len() > 0 {
            rest.insert(t)
        } else {
            rest
        }
    }
}

/// Trims the tags, drops the empty ones, and sorts and deduplicates the rest.
pub fn normalize_tags(tags: Vec<String>) -> (r: Vec<String>)
    ensures
        strictly_sorted(string_views(r@)),
        string_views(r@).to_set() == kept_tags(string_views(tags@)),
{
    let ghost all = string_views(tags@);
    let mut out: Vec<String> = Vec::new();
    let mut i: usize = 0;
    assert(string_views(out@).to_set() =~= Set::<Seq<char>>::empty());
    assert(all.take(0) =~= Seq::<Seq<char>>::empty());
    while i < tags.len()
        invariant
            i <= tags@.len(),
            all == string_views(tags@),
            strictly_sorted(string_views(out@)),
            string_views(out@).to_set() == kept_tags(all.take(i as int)),
        decreases tags@.len() - i,
    {
        proof {
            assert(all.take(i + 1).drop_last() =~= all.take(i as int));
            assert(all.take(i + 1).last() == tags@[i as int]@);
        }
        let t = trim_str(tags[i].as_str());
        if !t.as_str().is_empty() {
            insert_sorted_unique(&mut out, t);
        }
        i = i + 1;
    }
    assert(all.take(tags@.len() as int) =~= all);
    out
}

// ---------------------------------------------------------------------------
// Looking facts up
// ---------------------------------------------------------------------------

/// The position of the first fact with id `id`.
pub open spec fn first_with_id(facts: Seq<MemoryFact>, id: Seq<char>) -> Option<int>
    decreases facts.len(),
{
    if facts.len() == 0 {
        None
    } else if facts[0].id@ == id {
        Some(0)
    } else {
        match first_with_id(facts.drop_first(), id) {
            Some(i) => Some(i + 1),
            None => None,
        }
    }
}

/// `first_with_id` finds the first match.
pub proof fn lemma_first_with_id(facts: Seq<MemoryFact>, id: Seq<char>)
    ensures
        match first_with_id(facts, id) {
            Some(i) => 0 <= i < facts.len() && facts[i].id@ == id && forall|j: int|
                0 <= j < i ==> (#[trigger] facts[j]).id@ != id,
            None => forall|j: int| 0 <= j < facts.len() ==> (#[trigger] facts[j]).id@ != id,
        },
    decreases facts.len(),
{
    if facts.len() > 0 && facts[0].id@ != id {
        let rest = facts.drop_first();
        lemma_first_with_id(rest, id);
        match first_with_id(rest, id) {
            Some(i) => {
                assert(facts[i + 1] == rest[i]);
                assert forall|j: int| 0 <= j < i + 1 implies (#[trigger] facts[j]).id@ != id by {
                    if j > 0 {
                        assert(facts[j] == rest[j - 1]);
                    }
                }
            },
            None => {
                assert forall|j: int| 0 <= j < facts.len() implies (#[trigger] facts[j]).id@ != id by {
                    if j > 0 {
                        assert(facts[j] == rest[j - 1]);
                    }
                }
            },
        }
    }
}

/// The first fact with id `id`, taken out of `facts`.
pub fn find_fact(facts: Vec<MemoryFact>, id: &str) -> (r: Option<MemoryFact>)
    ensures
        match first_with_id(facts@, id@) {
            Some(i) => r == Some(facts@[i]),
            None => r is None,
        },
{
    proof {
        lemma_first_with_id(facts@, id@);
    }
    let mut i: usize = 0;
    while i < facts.len()
        invariant
            i <= facts@.len(),
            forall|j: int| 0 <= j < i ==> (#[trigger] facts@[j]).id@ != id@,
        ensures
            i <= facts@.len(),
            forall|j: int| 0 <= j < i ==> (#[trigger] facts@[j]).id@ != id@,
            i < facts@.len() ==> facts@[i as int].id@ == id@,
        decreases facts@.len() - i,
    {
        if str_eq(facts[i].id.as_str(), id) {
            break;
        }
        i = i + 1;
    }
    if i < facts.len() {
        assert(facts@[i as int].id@ == id@);
        assert(first_with_id(facts@, id@) == Some(i as int)) by {
            match first_with_id(facts@, id@) {
                Some(k) => {
                    if k < i {
                        assert(facts@[k].id@ != id@);
                    }
                    if k > i {
                        assert(facts@[i as int].id@ != id@);
                    }
                },
                None => {
                    assert(facts@[i as int].id@ != id@);
                },
            }
        }
        let mut facts = facts;
        let f = facts.remove(i);
        Some(f)
    } else {
        None
    }
}

/// Whether a fact with id `id` is in `facts`.
pub fn has_id(facts: &Vec<MemoryFact>, id: &str) -> (r: bool)
    ensures
        r == (first_with_id(facts@, id@) is Some),
{
    proof {
        lemma_first_with_id(facts@, id@);
    }
    let mut i: usize = 0;
    while i < facts.len()
        invariant
            i <= facts@.len(),
            forall|j: int| 0 <= j < i ==> (#[trigger] facts@[j]).id@ != id@,
        decreases facts@.len() - i,
    {
        if str_eq(facts[i].id.as_str(), id) {
            proof {
                lemma_first_with_id(facts@, id@);
            }
            return true;
        }
        i = i + 1;
    }
    false
}

// ---------------------------------------------------------------------------
// The store
// ---------------------------------------------------------------------------

/// The fact of the first scope that has `id`: the workspace scope, then the user scope.
pub open spec fn effective_fact(
    workspace: Seq<MemoryFact>,
    user: Seq<MemoryFact>,
    id: Seq<char>,
) -> Option<ScopedMemoryFact> {
    match first_with_id(workspace, id) {
        Some(i) => Some(ScopedMemoryFact { scope: MemoryScope::Workspace, fact: workspace[i] }),
        None => match first_with_id(user, id) {
            Some(i) => Some(ScopedMemoryFact { scope: MemoryScope::User, fact: user[i] }),
            None => None,
        },
    }
}

/// The views of a list of strings, each carried by `f`.
pub open spec fn mapped_views(v: Seq<String>, f: spec_fn(Seq<char>) -> Seq<char>) -> Seq<Seq<char>> {
    Seq::new(v.len(), |i: int| f(v[i]@))
}

/// `fact` is `input` redacted by `r`, trimmed, with normalized tags and the given
/// timestamps; the id is kept as given.
pub open spec fn fact_prepared(
    r: Redactor,
    input: MemoryFactInput,
    created_at: Seq<char>,
    now: Seq<char>,
    fact: MemoryFact,
) -> bool {
    &&& fact.id@ == input.id@
    &&& fact.subject@ == trim_spec(r.text_redaction(input.subject@).0)
    &&& fact.fact@ == trim_spec(r.text_redaction(input.fact@).0)
    &&& fact.citations@ == trim_spec(r.text_redaction(input.citations@).0)
    &&& fact.reason@ == trim_spec(r.text_redaction(input.reason@).0)
    &&& fact.category@ == trim_spec(r.text_redaction(input.category@).0)
    &&& strictly_sorted(string_views(fact.tags@))
    &&& string_views(fact.tags@).to_set() == kept_tags(mapped_views(input.tags@, r.redacted_text()))
    &&& fact.created_at@ == created_at
    &&& fact.updated_at@ == now
}

/// The message for a scope whose storage is disabled.
pub open spec fn disabled_scope_text(scope: MemoryScope) -> Seq<char> {
    match scope {
        MemoryScope::User => "user memory storage is disabled by configuration"@,
        MemoryScope::Workspace => "workspace memory storage is disabled by configuration"@,
    }
}

/// What a delete does: whether the id existed, and from which scopes to delete it.
#[derive(Debug)]
pub struct MemoryDeletion {
    pub deleted: bool,
    pub delete_user: bool,
    pub delete_workspace: bool,
}

/// The user and workspace memory stores, with the redactor every stored text goes
/// through. The facts of a scope whose store is not configured are taken to be none.
pub struct MemoryStore {
    redactor: Redactor,
    user_store_path: Option<String>,
    workspace_store_path: Option<String>,
}

impl MemoryStore {
    /// The redactor.
    pub closed spec fn redactor_view(&self) -> Redactor {
        self.redactor
    }

    /// The user store's path, when configured.
    pub closed spec fn user_path_view(&self) -> Option<Seq<char>> {
        match self.user_store_path {
            Some(p) => Some(p@),
            None => None,
        }
    }

    /// The workspace store's path, when configured.
    pub closed spec fn workspace_path_view(&self) -> Option<Seq<char>> {
        match self.workspace_store_path {
            Some(p) => Some(p@),
            None => None,
        }
    }

    /// The path of a scope's store, when configured.
    pub open spec fn scope_path_view(&self, scope: MemoryScope) -> Option<Seq<char>> {
        match scope {
            MemoryScope::User => self.user_path_view(),
            MemoryScope::Workspace => self.workspace_path_view(),
        }
    }

    /// A store with the given redactor and store paths.
    pub fn new(redactor: Redactor, user_store_path: Option<String>, workspace_store_path: Option<String>) -> (s: Self)
        ensures
            s.redactor_view() == redactor,
            s.user_path_view() == match user_store_path {
                Some(p) => Some(p@),
                None => None::<Seq<char>>,
            },
            s.workspace_path_view() == match workspace_store_path {
                Some(p) => Some(p@),
                None => None::<Seq<char>>,
            },
    {
        MemoryStore { redactor, user_store_path, workspace_store_path }
    }

    /// The user store's path, when configured.
    pub fn user_store_path(&self) -> (r: Option<&str>)
        ensures
            match r {
                Some(p) => self.user_path_view() == Some(p@),
                None => self.user_path_view() is None,
            },
    {
        match &self.user_store_path {
            Some(p) => Some(p.as_str()),
            None => None,
        }
    }

    /// The workspace store's path, when configured.
    pub fn workspace_store_path(&self) -> (r: Option<&str>)
        ensures
            match r {
                Some(p) => self.workspace_path_view() == Some(p@),
                None => self.workspace_path_view() is None,
            },
    {
        match &self.workspace_store_path {
            Some(p) => Some(p.as_str()),
            None => None,
        }
    }

    /// The path of a scope's store; an error when it is not configured.
    pub fn store_path_for_scope(&self, scope: MemoryScope) -> (r: Result<&str, AlfredError>)
        ensures
            match self.scope_path_view(scope) {
                Some(p) => r is Ok && r->Ok_0@ == p,
                None => r is Err && is_error(r->Err_0, ErrorKind::InvalidArgument, disabled_scope_text(scope)),
            },
    {
        match scope {
            MemoryScope::User => match &self.user_store_path {
                Some(p) => Ok(p.as_str()),
                None => Err(
                    AlfredError::InvalidArgument(
                        "user memory storage is disabled by configuration".to_string(),
                    ),
                ),
            },
            MemoryScope::Workspace => match &self.workspace_store_path {
                Some(p) => Ok(p.as_str()),
                None => Err(
                    AlfredError::InvalidArgument(
                        "workspace memory storage is disabled by configuration".to_string(),
                    ),
                ),
            },
        }
    }

    /// Redacts, trims and normalizes an input into the fact to store, keeping the creation
    /// time of the fact it replaces.
    fn prepare_fact(&self, input: MemoryFactInput, existing: Option<MemoryFact>, now: String) -> (f: MemoryFact)
        ensures
            fact_prepared(
                self.redactor_view(),
                input,
                match existing {
                    Some(e) => e.created_at@,
                    None => now@,
                },
                now@,
                f,
            ),
    {
        let r = &self.redactor;
        let mut tags: Vec<String> = Vec::new();
        let mut i: usize = 0;
        while i < input.tags.len()
            invariant
                i <= input.tags@.len(),
                tags@.len() == i,
                forall|j: int|
                    0 <= j < i ==> (#[trigger] tags@[j])@ == r.text_redaction(input.tags@[j]@).0,
            decreases input.tags@.len() - i,
        {
            tags.push(r.redact_text(input.tags[i].as_str()));
            i = i + 1;
        }
        assert(string_views(tags@) =~= mapped_views(input.tags@, r.redacted_text()));
        let tags = normalize_tags(tags);
        let created_at = match existing {
            Some(e) => e.created_at,
            None => now.clone(),
        };
        MemoryFact {
            id: input.id,
            subject: trim_str(r.redact_text(input.subject.as_str()).as_str()),
            fact: trim_str(r.redact_text(input.fact.as_str()).as_str()),
            citations: trim_str(r.redact_text(input.citations.as_str()).as_str()),
            reason: trim_str(r.redact_text(input.reason.as_str()).as_str()),
            category: trim_str(r.redact_text(input.category.as_str()).as_str()),
            tags,
            created_at,
            updated_at: now,
        }
    }

    /// The fact with id `id` among `facts` (the facts of `scope`); a blank id is an error.
    pub fn get_in_scope(&self, scope: MemoryScope, id: &str, facts: Vec<MemoryFact>) -> (r: Result<
        Option<MemoryFact>,
        AlfredError,
    >)
        ensures
            blank(id@) ==> r is Err && is_error(r->Err_0, ErrorKind::InvalidArgument, empty_field_text("id"@)),
            !blank(id@) ==> r is Ok && r->Ok_0 == match first_with_id(facts@, id@) {
                Some(i) => Some(facts@[i]),
                None => None::<MemoryFact>,
            },
    {
        validate_id(id)?;
        Ok(find_fact(facts, id))
    }

    /// Whether `facts` (the facts of `scope`) hold `id`; an unconfigured scope or a blank
    /// id is an error.
    pub fn exists_in_scope(&self, scope: MemoryScope, id: &str, facts: &Vec<MemoryFact>) -> (r: Result<
        bool,
        AlfredError,
    >)
        ensures
            self.scope_path_view(scope) is None ==> r is Err && is_error(
                r->Err_0,
                ErrorKind::InvalidArgument,
                disabled_scope_text(scope),
            ),
            self.scope_path_view(scope) is Some && blank(id@) ==> r is Err && is_error(
                r->Err_0,
                ErrorKind::InvalidArgument,
                empty_field_text("id"@),
            ),
            self.scope_path_view(scope) is Some && !blank(id@) ==> r == Ok::<bool, AlfredError>(
                first_with_id(facts@, id@) is Some,
            ),
    {
        let _ = self.store_path_for_scope(scope)?;
        validate_id(id)?;
        Ok(has_id(facts, id))
    }

    /// The fact with id `id` and the scope it comes from: the workspace scope wins over
    /// the user scope. A blank id is an error.
    pub fn get_effective_scoped(
        &self,
        id: &str,
        workspace_facts: Vec<MemoryFact>,
        user_facts: Vec<MemoryFact>,
    ) -> (r: Result<Option<ScopedMemoryFact>, AlfredError>)
        ensures
            blank(id@) ==> r is Err && is_error(r->Err_0, ErrorKind::InvalidArgument, empty_field_text("id"@)),
            !blank(id@) ==> r is Ok && r->Ok_0 == effective_fact(workspace_facts@, user_facts@, id@),
    {
        validate_id(id)?;
        if let Some(found) = find_fact(workspace_facts, id) {
            return Ok(Some(ScopedMemoryFact { scope: MemoryScope::Workspace, fact: found }));
        }
        if let Some(found) = find_fact(user_facts, id) {
            return Ok(Some(ScopedMemoryFact { scope: MemoryScope::User, fact: found }));
        }
        Ok(None)
    }

    /// The effective fact with id `id`; an unknown id is an error.
    pub fn get(&self, id: &str, workspace_facts: Vec<MemoryFact>, user_facts: Vec<MemoryFact>) -> (r:
        Result<MemoryFact, AlfredError>)
        ensures
            blank(id@) ==> r is Err && is_error(r->Err_0, ErrorKind::InvalidArgument, empty_field_text("id"@)),
            !blank(id@) ==> match effective_fact(workspace_facts@, user_facts@, id@) {
                Some(s) => r == Ok::<MemoryFact, AlfredError>(s.fact),
                None => r is Err && is_error(
                    r->Err_0,
                    ErrorKind::NotFound,
                    "memory fact not found: "@ + id@,
                ),
            },
    {
        match self.get_effective_scoped(id, workspace_facts, user_facts)? {
            Some(found) => Ok(found.fact),
            None => Err(AlfredError::NotFound(concat2("memory fact not found: ", id))),
        }
    }

    /// Plans storing a fact in the explicitly requested scope, whose facts are
    /// `scope_facts`: the fact to store (it keeps the creation time of the fact it
    /// replaces). An invalid input, or a scope that is not configured, is an error.
    pub fn upsert_in_scope(
        &self,
        scope: MemoryScope,
        input: MemoryFactInput,
        scope_facts: Vec<MemoryFact>,
        now: String,
    ) -> (r: Result<MemoryFact, AlfredError>)
        ensures
            match input_problem(input) {
                Some(field) => r is Err && is_error(r->Err_0, ErrorKind::InvalidArgument, empty_field_text(field)),
                None => match self.scope_path_view(scope) {
                    None => r is Err && is_error(
                        r->Err_0,
                        ErrorKind::InvalidArgument,
                        disabled_scope_text(scope),
                    ),
                    Some(_) => r is Ok && fact_prepared(
                        self.redactor_view(),
                        input,
                        match first_with_id(scope_facts@, input.id@) {
                            Some(i) => scope_facts@[i].created_at@,
                            None => now@,
                        },
                        now@,
                        r->Ok_0,
                    ),
                },
            },
    {
        validate_input(&input)?;
        let existing = find_fact(scope_facts, input.id.as_str());
        let fact = self.prepare_fact(input, existing, now);
        let _ = self.store_path_for_scope(scope)?;
        Ok(fact)
    }

    /// Plans storing a fact: the fact to store (it keeps the creation time of the
    /// effective fact it replaces) and the scope to store it in: the workspace scope when
    /// it already holds the id, else the user scope, else the workspace scope. An invalid
    /// input, or no configured scope, is an error.
    pub fn put(
        &self,
        input: MemoryFactInput,
        workspace_facts: Vec<MemoryFact>,
        user_facts: Vec<MemoryFact>,
        now: String,
    ) -> (r: Result<(MemoryFact, MemoryScope), AlfredError>)
        ensures
            match input_problem(input) {
                Some(field) => r is Err && is_error(r->Err_0, ErrorKind::InvalidArgument, empty_field_text(field)),
                None => {
                    let in_workspace = self.workspace_path_view() is Some && first_with_id(
                        workspace_facts@,
                        input.id@,
                    ) is Some;
                    if !in_workspace && self.user_path_view() is None && self.workspace_path_view() is None {
                        r is Err && is_error(
                            r->Err_0,
                            ErrorKind::InvalidArgument,
                            "memory storage is disabled by configuration"@,
                        )
                    } else {
                        r is Ok && r->Ok_0.1 == if in_workspace || self.user_path_view() is None {
                            MemoryScope::Workspace
                        } else {
                            MemoryScope::User
                        } && fact_prepared(
                            self.redactor_view(),
                            input,
                            match effective_fact(workspace_facts@, user_facts@, input.id@) {
                                Some(s) => s.fact.created_at@,
                                None => now@,
                            },
                            now@,
                            r->Ok_0.0,
                        )
                    }
                },
            },
    {
        validate_input(&input)?;
        let in_workspace = self.workspace_store_path.is_some() && has_id(
            &workspace_facts,
            input.id.as_str(),
        );
        let existing = match find_fact(workspace_facts, input.id.as_str()) {
            Some(f) => Some(f),
            None => find_fact(user_facts, input.id.as_str()),
        };
        let fact = self.prepare_fact(input, existing, now);
        let scope = if in_workspace {
            MemoryScope::Workspace
        } else if self.user_store_path.is_some() {
            MemoryScope::User
        } else if self.workspace_store_path.is_some() {
            MemoryScope::Workspace
        } else {
            return Err(
                AlfredError::InvalidArgument("memory storage is disabled by configuration".to_string()),
            );
        };
        Ok((fact, scope))
    }

    /// Plans deleting a fact: whether the id exists in a configured scope, and (but for a
    /// dry run) the scopes to delete it from. A blank id is an error.
    pub fn delete(
        &self,
        id: &str,
        dry_run: bool,
        user_facts: &Vec<MemoryFact>,
        workspace_facts: &Vec<MemoryFact>,
    ) -> (r: Result<MemoryDeletion, AlfredError>)
        ensures
            blank(id@) ==> r is Err && is_error(r->Err_0, ErrorKind::InvalidArgument, empty_field_text("id"@)),
            !blank(id@) ==> r is Ok && {
                let d = r->Ok_0;
                let user = self.user_path_view() is Some && first_with_id(user_facts@, id@) is Some;
                let workspace = self.workspace_path_view() is Some && first_with_id(
                    workspace_facts@,
                    id@,
                ) is Some;
                &&& d.deleted == (user || workspace)
                &&& d.delete_user == (user && !dry_run)
                &&& d.delete_workspace == (workspace && !dry_run)
            },
    {
        validate_id(id)?;
        let user_exists = self.user_store_path.is_some() && has_id(user_facts, id);
        let workspace_exists = self.workspace_store_path.is_some() && has_id(workspace_facts, id);
        let deleted = user_exists || workspace_exists;
        if !deleted || dry_run {
            return Ok(MemoryDeletion { deleted, delete_user: false, delete_workspace: false });
        }
        Ok(MemoryDeletion { deleted: true, delete_user: user_exists, delete_workspace: workspace_exists })
    }
}

// ---------------------------------------------------------------------------
// The effective facts of both scopes
// ---------------------------------------------------------------------------

/// `m` with the facts of `facts` put in by id, in order, each tagged with `scope`: a later
/// fact with an id already present replaces the earlier one.
pub open spec fn insert_facts(
    m: Map<Seq<char>, ScopedMemoryFact>,
    facts: Seq<MemoryFact>,
    scope: MemoryScope,
) -> Map<Seq<char>, ScopedMemoryFact>
    decreases facts.len(),
{
    if facts.len() == 0 {
        m
    } else {
        insert_facts(m, facts.drop_last(), scope).insert(
            facts.last().id@,
            ScopedMemoryFact { scope, fact: facts.last() },
        )
    }
}

/// The effective fact of each id: the user facts, then the workspace facts over them.
pub open spec fn effective_facts(user: Seq<MemoryFact>, workspace: Seq<MemoryFact>) -> Map<
    Seq<char>,
    ScopedMemoryFact,
> {
    insert_facts(insert_facts(Map::empty(), user, MemoryScope::User), workspace, MemoryScope::Workspace)
}

/// The ids of a list of scoped facts.
pub open spec fn scoped_ids(v: Seq<ScopedMemoryFact>) -> Seq<Seq<char>> {
    Seq::new(v.len(), |i: int| v[i].fact.id@)
}

/// `v` lists the entries of `m` by increasing id, each once.
pub open spec fn lists_by_id(v: Seq<ScopedMemoryFact>, m: Map<Seq<char>, ScopedMemoryFact>) -> bool {
    &&& strictly_sorted(scoped_ids(v))
    &&& forall|i: int|
        0 <= i < v.len() ==> m.contains_key((#[trigger] v[i]).fact.id@) && m[v[i].fact.id@] == v[i]
    &&& forall|k: Seq<char>|
        m.contains_key(k) ==> exists|i: int| 0 <= i < v.len() && (#[trigger] v[i]).fact.id@ == k
}

fn fact_before(item: &ScopedMemoryFact, key: &[char]) -> (r: bool)
    ensures
        r == seq_lt(item.fact.id@, key@),
{
    let id = chars_of(item.fact.id.as_str());
    chars_lt(id.as_slice(), key)
}

/// Puts `x` in a list ordered by id, replacing the entry with the same id.
fn upsert_by_id(
    v: &mut Vec<ScopedMemoryFact>,
    x: ScopedMemoryFact,
    Ghost(m): Ghost<Map<Seq<char>, ScopedMemoryFact>>,
)
    requires
        lists_by_id(old(v)@, m),
    ensures
        lists_by_id(final(v)@, m.insert(x.fact.id@, x)),
{
    let ghost before = v@;
    let ghost k = x.fact.id@;
    let ghost m2 = m.insert(k, x);
    let key = chars_of(x.fact.id.as_str());
    let mut i: usize = 0;
    while i < v.len() && fact_before(&v[i], key.as_slice())
        invariant
            i <= v@.len(),
            v@ == before,
            key@ == k,
            lists_by_id(before, m),
            forall|j: int| 0 <= j < i ==> seq_lt(#[trigger] scoped_ids(before)[j], k),
        decreases v@.len() - i,
    {
        assert(scoped_ids(before)[i as int] == before[i as int].fact.id@);
        i = i + 1;
    }
    let ghost ids = scoped_ids(before);
    if i < v.len() {
        let cur = chars_of(v[i].fact.id.as_str());
        if chars_eq(cur.as_slice(), key.as_slice()) {
            v.set(i, x);
            proof {
                let after = v@;
                assert(ids[i as int] == k);
                assert(scoped_ids(after) =~= ids);
                assert forall|a: int| 0 <= a < after.len() implies m2.contains_key(
                    (#[trigger] after[a]).fact.id@,
                ) && m2[after[a].fact.id@] == after[a] by {
                    if a != i {
                        assert(after[a] == before[a]);
                        assert(ids[a] != k) by {
                            lemma_seq_lt_total(ids[a], ids[a]);
                            if a < i {
                                assert(seq_lt(ids[a], ids[i as int]));
                            } else {
                                assert(seq_lt(ids[i as int], ids[a]));
                            }
                        }
                    }
                }
                assert forall|q: Seq<char>| m2.contains_key(q) implies exists|b: int|
                    0 <= b < after.len() && (#[trigger] after[b]).fact.id@ == q by {
                    if q == k {
                        assert(after[i as int].fact.id@ == q);
                    } else {
                        let b = choose|b: int| 0 <= b < before.len() && (#[trigger] before[b]).fact.id@ == q;
                        assert(after[b].fact.id@ == q);
                    }
                }
            }
            return;
        }
        proof {
            assert(ids[i as int] != k);
            lemma_seq_lt_total(ids[i as int], k);
        }
    }
    v.insert(i, x);
    proof {
        let after = v@;
        let aids = scoped_ids(after);
        assert(after =~= before.insert(i as int, x));
        assert(i < before.len() ==> seq_lt(k, ids[i as int]));
        assert forall|j: int| i <= j < before.len() implies seq_lt(k, #[trigger] ids[j]) by {
            if j > i {
                lemma_seq_lt_transitive(k, ids[i as int], ids[j]);
            }
        }
        assert forall|j: int| 0 <= j < before.len() implies (#[trigger] ids[j]) != k by {
            lemma_seq_lt_total(k, k);
            if j >= i {
                assert(seq_lt(k, ids[j]));
            } else {
                assert(seq_lt(ids[j], k));
            }
        }
        assert(!m.contains_key(k)) by {
            if m.contains_key(k) {
                let b = choose|b: int| 0 <= b < before.len() && (#[trigger] before[b]).fact.id@ == k;
                assert(ids[b] == k);
            }
        }
        assert forall|a: int, b: int| 0 <= a < b < aids.len() implies seq_lt(
            #[trigger] aids[a],
            #[trigger] aids[b],
        ) by {
            if b < i {
                assert(aids[a] == ids[a] && aids[b] == ids[b]);
            } else if b == i {
                assert(aids[a] == ids[a]);
            } else if a < i {
                assert(aids[a] == ids[a] && aids[b] == ids[b - 1]);
                lemma_seq_lt_transitive(ids[a], k, ids[b - 1]);
            } else if a == i {
                assert(aids[b] == ids[b - 1]);
            } else {
                assert(aids[a] == ids[a - 1] && aids[b] == ids[b - 1]);
            }
        }
        assert forall|a: int| 0 <= a < after.len() implies m2.contains_key((#[trigger] after[a]).fact.id@)
            && m2[after[a].fact.id@] == after[a] by {
            if a < i {
                assert(after[a] == before[a]);
                assert(ids[a] != k);
            } else if a > i {
                assert(after[a] == before[a - 1]);
                assert(ids[a - 1] != k);
            }
        }
        assert forall|q: Seq<char>| m2.contains_key(q) implies exists|b: int|
            0 <= b < after.len() && (#[trigger] after[b]).fact.id@ == q by {
            if q == k {
                assert(after[i as int].fact.id@ == q);
            } else {
                let b = choose|b: int| 0 <= b < before.len() && (#[trigger] before[b]).fact.id@ == q;
                if b < i {
                    assert(after[b].fact.id@ == q);
                } else {
                    assert(after[b + 1].fact.id@ == q);
                }
            }
        }
    }
}

/// Puts the facts of one scope into a list ordered by id.
fn upsert_all(
    v: &mut Vec<ScopedMemoryFact>,
    facts: Vec<MemoryFact>,
    scope: MemoryScope,
    Ghost(m): Ghost<Map<Seq<char>, ScopedMemoryFact>>,
)
    requires
        lists_by_id(old(v)@, m),
    ensures
        lists_by_id(final(v)@, insert_facts(m, facts@, scope)),
{
    let ghost all = facts@;
    let n = facts.len();
    let mut rest = reversed(facts);
    let mut i: usize = 0;
    assert(all.take(0) =~= Seq::<MemoryFact>::empty());
    while i < n
        invariant
            n == all.len(),
            i <= n,
            rest@.len() == n - i,
            forall|k: int| 0 <= k < rest@.len() ==> #[trigger] rest@[k] == all[n - 1 - k],
            lists_by_id(v@, insert_facts(m, all.take(i as int), scope)),
        decreases n - i,
    {
        let f = rest.pop().unwrap();
        proof {
            assert(f == all[i as int]);
            assert(all.take(i + 1).drop_last() =~= all.take(i as int));
            assert(all.take(i + 1).last() == all[i as int]);
        }
        upsert_by_id(v, ScopedMemoryFact { scope, fact: f }, Ghost(insert_facts(m, all.take(i as int), scope)));
        i = i + 1;
    }
    assert(all.take(n as int) =~= all);
}

impl MemoryStore {
    /// The effective facts of both scopes, by increasing id: the workspace fact wins over
    /// the user fact with the same id (and within a scope, a later fact over an earlier).
    pub fn list_effective_scoped(&self, user_facts: Vec<MemoryFact>, workspace_facts: Vec<MemoryFact>) -> (r:
        Vec<ScopedMemoryFact>)
        ensures
            lists_by_id(r@, effective_facts(user_facts@, workspace_facts@)),
    {
        let mut merged: Vec<ScopedMemoryFact> = Vec::new();
        let ghost empty = Map::<Seq<char>, ScopedMemoryFact>::empty();
        assert(scoped_ids(merged@) =~= Seq::<Seq<char>>::empty());
        upsert_all(&mut merged, user_facts, MemoryScope::User, Ghost(empty));
        upsert_all(
            &mut merged,
            workspace_facts,
            MemoryScope::Workspace,
            Ghost(insert_facts(empty, user_facts@, MemoryScope::User)),
        );
        merged
    }

    /// The effective facts of both scopes, by increasing id (see `list_effective_scoped`).
    pub fn list_effective(&self, user_facts: Vec<MemoryFact>, workspace_facts: Vec<MemoryFact>) -> (r:
        Vec<MemoryFact>)
        ensures
            exists|v: Seq<ScopedMemoryFact>|
                lists_by_id(v, effective_facts(user_facts@, workspace_facts@)) && v.len() == r@.len()
                    && forall|i: int| 0 <= i < v.len() ==> (#[trigger] v[i]).fact == r@[i],
    {
        let scoped = self.list_effective_scoped(user_facts, workspace_facts);
        let ghost v = scoped@;
        let n = scoped.len();
        let mut rest = reversed(scoped);
        let mut out: Vec<MemoryFact> = Vec::new();
        while out.len() < n
            invariant
                n == v.len(),
                out@.len() <= n,
                rest@.len() == n - out@.len(),
                forall|k: int| 0 <= k < rest@.len() ==> #[trigger] rest@[k] == v[n - 1 - k],
                forall|i: int| 0 <= i < out@.len() ==> v[i].fact == #[trigger] out@[i],
            decreases n - out@.len(),
        {
            let s = rest.pop().unwrap();
            out.push(s.fact);
        }
        assert(forall|i: int| 0 <= i < v.len() ==> (#[trigger] v[i]).fact == out@[i]);
        out
    }
}

} // verus!
