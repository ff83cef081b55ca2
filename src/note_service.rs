use vstd::prelude::*;
use vstd::string::*;
use crate::error::{AppError, AppResult, ErrorKind, fails_with, not_found};
use crate::merge::effective_now;
use crate::models::{
    CreateNoteDto, Note, NoteView, UpdateNoteDto, notes_view, opt_strs_view,
    strs_view,
};
use crate::provider::{new_id, now_timestamp};
use crate::store::{
    DbService, StoreTables, has_note, has_project_id, note_index, positions_by_key_desc, same_text,
};
use crate::task_service::{contains_text, lemma_filter_step, text_contains};

verus! {

/// Note operations: plain create, read, update and delete over the note table.
pub struct NoteService;

/// The note that a creation request describes, with id `id`, created at `now`.
pub open spec fn new_note_view(data: CreateNoteDto, id: Seq<char>, now: i64) -> NoteView {
    NoteView {
        id: id,
        project_id: data.project_id@,
        title: data.title@,
        content: data.content@,
        created_at: now,
        updated_at: now,
        tags: opt_strs_view(data.tags),
        is_pinned: match data.is_pinned {
            Some(b) => b,
            None => false,
        },
    }
}

/// Why a note creation request fails whatever id it gets, if it does.
pub open spec fn create_note_failure(s: StoreTables, data: CreateNoteDto) -> Option<ErrorKind> {
    if data.title@.len() == 0 || data.project_id@.len() == 0 {
        Some(ErrorKind::InvalidInput)
    } else if !has_project_id(s.projects, data.project_id@) {
        Some(ErrorKind::NotFound)
    } else {
        None
    }
}

/// The notes of a project, in store order.
pub open spec fn project_notes(ns: Seq<NoteView>, project_id: Seq<char>) -> Seq<NoteView> {
    ns.filter(|n: NoteView| n.project_id == project_id)
}

/// The pinned notes of a project, in store order.
pub open spec fn pinned_notes(ns: Seq<NoteView>, project_id: Seq<char>) -> Seq<NoteView> {
    ns.filter(|n: NoteView| n.project_id == project_id && n.is_pinned)
}

/// The query occurs in the title or the content of the note.
pub open spec fn note_matches(n: NoteView, query: Seq<char>) -> bool {
    contains_text(n.title, query) || contains_text(n.content, query)
}

/// The notes of a project that match a query, in store order.
pub open spec fn note_search_results(ns: Seq<NoteView>, project_id: Seq<char>, query: Seq<char>) -> Seq<NoteView> {
    ns.filter(|n: NoteView| n.project_id == project_id && note_matches(n, query))
}

/// The note carries at least one of the given tags.
pub open spec fn has_any_tag(n: NoteView, tags: Seq<Seq<char>>) -> bool {
    n.tags is Some && exists|i: int| 0 <= i < tags.len() && n.tags->0.contains(#[trigger] tags[i])
}

/// The notes of a project that carry one of the given tags, in store order.
pub open spec fn tagged_notes(ns: Seq<NoteView>, project_id: Seq<char>, tags: Seq<Seq<char>>) -> Seq<NoteView> {
    ns.filter(|n: NoteView| n.project_id == project_id && has_any_tag(n, tags))
}

/// Some note of the project carries the tag.
pub open spec fn project_uses_tag(ns: Seq<NoteView>, project_id: Seq<char>, tag: Seq<char>) -> bool {
    exists|i: int|
        0 <= i < ns.len() && ns[i].project_id == project_id && ns[i].tags is Some && (
        #[trigger] ns[i]).tags->0.contains(tag)
}

/// A note after a partial update at time `now`.
pub open spec fn merged_note(old: NoteView, dto: UpdateNoteDto, now: i64) -> NoteView {
    NoteView {
        title: match dto.title {
            Some(t) => t@,
            None => old.title,
        },
        content: match dto.content {
            Some(c) => c@,
            None => old.content,
        },
        tags: match dto.tags {
            Some(v) => Some(strs_view(v@)),
            None => old.tags,
        },
        is_pinned: match dto.is_pinned {
            Some(b) => b,
            None => old.is_pinned,
        },
        updated_at: now,
        ..old
    }
}

/// Whether the query occurs in the title or the content of a note.
pub fn note_matches_exec(n: &Note, query: &str) -> (r: bool)
    ensures
        r == note_matches(n@, query@),
{
    text_contains(n.title.as_str(), query) || text_contains(n.content.as_str(), query)
}

/// Whether a list of strings holds the given one.
pub fn holds_text(v: &Vec<String>, s: &String) -> (r: bool)
    ensures
        r == strs_view(v@).contains(s@),
{
    let mut i: usize = 0;
    while i < v.len()
        invariant
            i <= v@.len(),
            forall|k: int| 0 <= k < i ==> v@[k]@ != s@,
        decreases v@.len() - i,
    {
        if same_text(&v[i], s) {
            assert(strs_view(v@)[i as int] == s@);
            return true;
        }
        i = i + 1;
    }
    assert(!strs_view(v@).contains(s@)) by {
        if strs_view(v@).contains(s@) {
            let k = choose|k: int| 0 <= k < strs_view(v@).len() && strs_view(v@)[k] == s@;
            assert(v@[k]@ == s@);
        }
    }
    false
}

/// Whether a note carries one of the given tags.
pub fn has_any_tag_exec(n: &Note, tags: &Vec<String>) -> (r: bool)
    ensures
        r == has_any_tag(n@, strs_view(tags@)),
{
    match &n.tags {
        None => false,
        Some(own) => {
            let mut i: usize = 0;
            while i < tags.len()
                invariant
                    n.tags == Some(*own),
                    i <= tags@.len(),
                    forall|k: int| 0 <= k < i ==> !strs_view(own@).contains(#[trigger] strs_view(tags@)[k]),
                decreases tags@.len() - i,
            {
                if holds_text(own, &tags[i]) {
                    assert(strs_view(own@).contains(strs_view(tags@)[i as int]));
                    return true;
                }
                i = i + 1;
            }
            false
        },
    }
}

impl NoteService {
    /// Creates a note with the id `id` at time `now`: InvalidInput on an empty
    /// title or project id, NotFound when the project does not exist,
    /// InvalidInput on an empty `id`, Conflict when `id` is taken.
    pub fn create_note_at(store: &mut DbService, data: CreateNoteDto, id: String, now: i64) -> (r: AppResult<Note>)
        requires
            old(store).wf(),
        ensures
            final(store).wf(),
            create_note_failure(old(store)@, data) == Some(ErrorKind::NotFound) ==> not_found(
                r,
                "Project"@,
                data.project_id@,
            ),
            match create_note_failure(old(store)@, data) {
                Some(k) => fails_with(r, k) && final(store)@ == old(store)@,
                None => if id@.len() == 0 {
                    fails_with(r, ErrorKind::InvalidInput) && final(store)@ == old(store)@
                } else if has_note(old(store)@.notes, id@) {
                    fails_with(r, ErrorKind::Conflict) && final(store)@ == old(store)@
                } else {
                    r is Ok && r->Ok_0@ == new_note_view(data, id@, now) && final(store)@ == (StoreTables {
                        notes: old(store)@.notes.push(new_note_view(data, id@, now)),
                        ..old(store)@
                    })
                },
            },
    {
        if data.title.as_str().is_empty() {
            return Err(AppError::InvalidInput(String::from_str("Note title cannot be empty")));
        }
        if data.project_id.as_str().is_empty() {
            return Err(AppError::InvalidInput(String::from_str("Project ID cannot be empty")));
        }
        if store.find_project(&data.project_id).is_none() {
            return Err(AppError::NotFound("Project", data.project_id));
        }
        let note = Note {
            id: id,
            project_id: data.project_id,
            title: data.title,
            content: data.content,
            created_at: now,
            updated_at: now,
            tags: data.tags,
            is_pinned: match data.is_pinned {
                Some(b) => b,
                None => false,
            },
        };
        let out = note.duplicate();
        match store.insert_note(note) {
            Ok(()) => Ok(out),
            Err(e) => Err(e),
        }
    }

    /// Creates a note with a fresh id, stamped with the current time; see
    /// [`NoteService::create_note_at`].
    pub fn create_note(store: &mut DbService, data: CreateNoteDto) -> (r: AppResult<Note>)
        requires
            old(store).wf(),
        ensures
            final(store).wf(),
            create_note_failure(old(store)@, data) == Some(ErrorKind::NotFound) ==> not_found(
                r,
                "Project"@,
                data.project_id@,
            ),
            match create_note_failure(old(store)@, data) {
                Some(k) => fails_with(r, k) && final(store)@ == old(store)@,
                None => match r {
                    Ok(n) => n@.id.len() == 36 && n@ == new_note_view(data, n@.id, n@.created_at) && final(store)@ == (StoreTables {
                        notes: old(store)@.notes.push(n@),
                        ..old(store)@
                    }),
                    Err(e) => fails_with(r, ErrorKind::Conflict) && final(store)@ == old(store)@
                        && exists|i: int| 0 <= i < old(store)@.notes.len() && old(store)@.notes[i].id.len() == 36,
                },
            },
    {
        let id = new_id();
        let now = now_timestamp();
        Self::create_note_at(store, data, id, now)
    }

    /// All notes of a project, in store order.
    pub fn list_notes(store: &DbService, project_id: String) -> (r: AppResult<Vec<Note>>)
        requires
            store.wf(),
        ensures
            project_id@.len() == 0 ==> fails_with(r, ErrorKind::InvalidInput),
            project_id@.len() > 0 ==> r is Ok && notes_view(r->Ok_0@) == project_notes(
                store@.notes,
                project_id@,
            ),
    {
        if project_id.as_str().is_empty() {
            return Err(AppError::InvalidInput(String::from_str("Project ID cannot be empty")));
        }
        Ok(store.get_notes_by_project(&project_id))
    }

    /// The pinned notes of a project, in store order.
    pub fn list_pinned_notes(store: &DbService, project_id: String) -> (r: AppResult<Vec<Note>>)
        requires
            store.wf(),
        ensures
            project_id@.len() == 0 ==> fails_with(r, ErrorKind::InvalidInput),
            project_id@.len() > 0 ==> r is Ok && notes_view(r->Ok_0@) == pinned_notes(
                store@.notes,
                project_id@,
            ),
    {
        if project_id.as_str().is_empty() {
            return Err(AppError::InvalidInput(String::from_str("Project ID cannot be empty")));
        }
        let ghost ns = store@.notes;
        let n = store.note_count();
        let mut out: Vec<Note> = Vec::new();
        let mut j: usize = 0;
        while j < n
            invariant
                ns == store@.notes,
                n == ns.len(),
                j <= n,
                notes_view(out@) == pinned_notes(ns.take(j as int), project_id@),
            decreases n - j,
        {
            let x = store.note_at(j);
            let ghost prev = out@;
            proof {
                lemma_filter_step(ns, |m: NoteView| m.project_id == project_id@ && m.is_pinned, j as int);
            }
            if same_text(&x.project_id, &project_id) && x.is_pinned {
                out.push(x.duplicate());
                assert(notes_view(out@) =~= notes_view(prev).push(ns[j as int]));
            }
            j = j + 1;
        }
        assert(ns.take(n as int) =~= ns);
        Ok(out)
    }

    /// The notes of a project whose title or content holds the query, in
    /// store order.
    pub fn search_notes(store: &DbService, project_id: String, query: String) -> (r: AppResult<Vec<Note>>)
        requires
            store.wf(),
        ensures
            project_id@.len() == 0 ==> fails_with(r, ErrorKind::InvalidInput),
            project_id@.len() > 0 ==> r is Ok && notes_view(r->Ok_0@) == note_search_results(
                store@.notes,
                project_id@,
                query@,
            ),
    {
        if project_id.as_str().is_empty() {
            return Err(AppError::InvalidInput(String::from_str("Project ID cannot be empty")));
        }
        let ghost ns = store@.notes;
        let n = store.note_count();
        let mut out: Vec<Note> = Vec::new();
        let mut j: usize = 0;
        while j < n
            invariant
                ns == store@.notes,
                n == ns.len(),
                j <= n,
                notes_view(out@) == note_search_results(ns.take(j as int), project_id@, query@),
            decreases n - j,
        {
            let x = store.note_at(j);
            let ghost prev = out@;
            proof {
                lemma_filter_step(
                    ns,
                    |m: NoteView| m.project_id == project_id@ && note_matches(m, query@),
                    j as int,
                );
            }
            if same_text(&x.project_id, &project_id) && note_matches_exec(x, query.as_str()) {
                out.push(x.duplicate());
                assert(notes_view(out@) =~= notes_view(prev).push(ns[j as int]));
            }
            j = j + 1;
        }
        assert(ns.take(n as int) =~= ns);
        Ok(out)
    }

    /// The notes of a project that carry at least one of the given tags, in
    /// store order. InvalidInput on an empty project id or an empty tag list.
    pub fn list_notes_by_tags(store: &DbService, project_id: String, tags: Vec<String>) -> (r: AppResult<Vec<Note>>)
        requires
            store.wf(),
        ensures
            project_id@.len() == 0 || tags@.len() == 0 ==> fails_with(r, ErrorKind::InvalidInput),
            project_id@.len() > 0 && tags@.len() > 0 ==> r is Ok && notes_view(r->Ok_0@) == tagged_notes(
                store@.notes,
                project_id@,
                strs_view(tags@),
            ),
    {
        if project_id.as_str().is_empty() {
            return Err(AppError::InvalidInput(String::from_str("Project ID cannot be empty")));
        }
        if tags.len() == 0 {
            return Err(AppError::InvalidInput(String::from_str("Tags cannot be empty")));
        }
        let ghost ns = store@.notes;
        let ghost q = strs_view(tags@);
        let n = store.note_count();
        let mut out: Vec<Note> = Vec::new();
        let mut j: usize = 0;
        while j < n
            invariant
                ns == store@.notes,
                q == strs_view(tags@),
                n == ns.len(),
                j <= n,
                notes_view(out@) == tagged_notes(ns.take(j as int), project_id@, q),
            decreases n - j,
        {
            let x = store.note_at(j);
            let ghost prev = out@;
            proof {
                lemma_filter_step(
                    ns,
                    |m: NoteView| m.project_id == project_id@ && has_any_tag(m, q),
                    j as int,
                );
            }
            if same_text(&x.project_id, &project_id) && has_any_tag_exec(x, &tags) {
                out.push(x.duplicate());
                assert(notes_view(out@) =~= notes_view(prev).push(ns[j as int]));
            }
            j = j + 1;
        }
        assert(ns.take(n as int) =~= ns);
        Ok(out)
    }
}

impl NoteService {
    /// The note with the given id.
    pub fn get_note(store: &DbService, id: String) -> (r: AppResult<Note>)
        requires
            store.wf(),
        ensures
            id@.len() == 0 ==> fails_with(r, ErrorKind::InvalidInput),
            id@.len() > 0 && !has_note(store@.notes, id@) ==> not_found(r, "Note"@, id@),
            has_note(store@.notes, id@) ==> r is Ok && r->Ok_0@ == store@.notes[note_index(
                store@.notes,
                id@,
            )],
    {
        if id.as_str().is_empty() {
            return Err(AppError::InvalidInput(String::from_str("Note ID cannot be empty")));
        }
        match store.get_note_by_id(&id) {
            Some(n) => Ok(n),
            None => Err(AppError::NotFound("Note", id)),
        }
    }

    /// Applies a partial update with the clock reading `clock`, never before
    /// the previous `updated_at`.
    pub fn update_note_at(store: &mut DbService, id: String, data: UpdateNoteDto, clock: i64) -> (r: AppResult<Note>)
        requires
            old(store).wf(),
        ensures
            final(store).wf(),
            id@.len() == 0 ==> fails_with(r, ErrorKind::InvalidInput) && final(store)@ == old(store)@,
            id@.len() > 0 && !has_note(old(store)@.notes, id@) ==> not_found(r, "Note"@, id@)
                && final(store)@ == old(store)@,
            has_note(old(store)@.notes, id@) ==> {
                let i = note_index(old(store)@.notes, id@);
                let n = merged_note(
                    old(store)@.notes[i],
                    data,
                    effective_now(clock, old(store)@.notes[i].updated_at),
                );
                &&& r is Ok
                &&& r->Ok_0@ == n
                &&& final(store)@ == (StoreTables { notes: old(store)@.notes.update(i, n), ..old(store)@ })
            },
    {
        if id.as_str().is_empty() {
            return Err(AppError::InvalidInput(String::from_str("Note ID cannot be empty")));
        }
        match store.find_note(&id) {
            None => Err(AppError::NotFound("Note", id)),
            Some(i) => {
                let mut n = store.note_at(i).duplicate();
                let now = if clock < n.updated_at {
                    n.updated_at
                } else {
                    clock
                };
                if let Some(v) = data.title {
                    n.title = v;
                }
                if let Some(v) = data.content {
                    n.content = v;
                }
                if let Some(v) = data.tags {
                    n.tags = Some(v);
                }
                if let Some(v) = data.is_pinned {
                    n.is_pinned = v;
                }
                n.updated_at = now;
                let out = n.duplicate();
                store.set_note(i, n);
                Ok(out)
            },
        }
    }

    /// Applies a partial update stamped with the current time; see
    /// [`NoteService::update_note_at`].
    pub fn update_note(store: &mut DbService, id: String, data: UpdateNoteDto) -> (r: AppResult<Note>)
        requires
            old(store).wf(),
        ensures
            final(store).wf(),
            id@.len() == 0 ==> fails_with(r, ErrorKind::InvalidInput) && final(store)@ == old(store)@,
            id@.len() > 0 && !has_note(old(store)@.notes, id@) ==> not_found(r, "Note"@, id@)
                && final(store)@ == old(store)@,
            has_note(old(store)@.notes, id@) ==> {
                let i = note_index(old(store)@.notes, id@);
                &&& r is Ok
                &&& r->Ok_0@ == merged_note(old(store)@.notes[i], data, r->Ok_0@.updated_at)
                &&& final(store)@ == (StoreTables {
                    notes: old(store)@.notes.update(i, r->Ok_0@),
                    ..old(store)@
                })
            },
    {
        let clock = now_timestamp();
        Self::update_note_at(store, id, data, clock)
    }

    /// Deletes a note.
    pub fn delete_note(store: &mut DbService, id: String) -> (r: AppResult<()>)
        requires
            old(store).wf(),
        ensures
            final(store).wf(),
            id@.len() == 0 ==> fails_with(r, ErrorKind::InvalidInput) && final(store)@ == old(store)@,
            id@.len() > 0 && !has_note(old(store)@.notes, id@) ==> not_found(r, "Note"@, id@)
                && final(store)@ == old(store)@,
            has_note(old(store)@.notes, id@) ==> r is Ok && final(store)@ == (StoreTables {
                notes: old(store)@.notes.remove(note_index(old(store)@.notes, id@)),
                ..old(store)@
            }),
    {
        if id.as_str().is_empty() {
            return Err(AppError::InvalidInput(String::from_str("Note ID cannot be empty")));
        }
        store.delete_note(&id)
    }

    /// Flips whether a note is pinned.
    pub fn toggle_pin(store: &mut DbService, id: String) -> (r: AppResult<Note>)
        requires
            old(store).wf(),
        ensures
            final(store).wf(),
            id@.len() == 0 ==> fails_with(r, ErrorKind::InvalidInput) && final(store)@ == old(store)@,
            id@.len() > 0 && !has_note(old(store)@.notes, id@) ==> not_found(r, "Note"@, id@)
                && final(store)@ == old(store)@,
            has_note(old(store)@.notes, id@) ==> {
                let i = note_index(old(store)@.notes, id@);
                let n = NoteView { is_pinned: !old(store)@.notes[i].is_pinned, ..old(store)@.notes[i] };
                &&& r is Ok
                &&& r->Ok_0@ == n
                &&& final(store)@ == (StoreTables { notes: old(store)@.notes.update(i, n), ..old(store)@ })
            },
    {
        if id.as_str().is_empty() {
            return Err(AppError::InvalidInput(String::from_str("Note ID cannot be empty")));
        }
        match store.find_note(&id) {
            None => Err(AppError::NotFound("Note", id)),
            Some(i) => {
                let mut n = store.note_at(i).duplicate();
                n.is_pinned = !n.is_pinned;
                let out = n.duplicate();
                store.set_note(i, n);
                Ok(out)
            },
        }
    }

    /// Duplicates a note under the id `new_id` at time `now`, with the title
    /// `new_title` if one is given. InvalidInput when `new_id` is empty,
    /// Conflict when it is taken.
    pub fn duplicate_note_at(store: &mut DbService, id: String, new_title: Option<String>, new_id: String, now: i64) -> (r: AppResult<Note>)
        requires
            old(store).wf(),
        ensures
            final(store).wf(),
            id@.len() == 0 ==> fails_with(r, ErrorKind::InvalidInput) && final(store)@ == old(store)@,
            id@.len() > 0 && !has_note(old(store)@.notes, id@) ==> not_found(r, "Note"@, id@)
                && final(store)@ == old(store)@,
            has_note(old(store)@.notes, id@) ==> {
                let src = old(store)@.notes[note_index(old(store)@.notes, id@)];
                let n = NoteView {
                    id: new_id@,
                    title: match new_title {
                        Some(t) => t@,
                        None => src.title,
                    },
                    created_at: now,
                    updated_at: now,
                    ..src
                };
                if new_id@.len() == 0 {
                    fails_with(r, ErrorKind::InvalidInput) && final(store)@ == old(store)@
                } else if has_note(old(store)@.notes, new_id@) {
                    fails_with(r, ErrorKind::Conflict) && final(store)@ == old(store)@
                } else {
                    r is Ok && r->Ok_0@ == n && final(store)@ == (StoreTables {
                        notes: old(store)@.notes.push(n),
                        ..old(store)@
                    })
                }
            },
    {
        if id.as_str().is_empty() {
            return Err(AppError::InvalidInput(String::from_str("Note ID cannot be empty")));
        }
        match store.find_note(&id) {
            None => Err(AppError::NotFound("Note", id)),
            Some(i) => {
                let mut n = store.note_at(i).duplicate();
                n.id = new_id;
                if let Some(t) = new_title {
                    n.title = t;
                }
                n.created_at = now;
                n.updated_at = now;
                let out = n.duplicate();
                match store.insert_note(n) {
                    Ok(()) => Ok(out),
                    Err(e) => Err(e),
                }
            },
        }
    }

    /// Duplicates a note under a fresh id at the current time; see
    /// [`NoteService::duplicate_note_at`].
    pub fn duplicate_note(store: &mut DbService, id: String, new_title: Option<String>) -> (r: AppResult<Note>)
        requires
            old(store).wf(),
        ensures
            final(store).wf(),
            id@.len() == 0 ==> fails_with(r, ErrorKind::InvalidInput) && final(store)@ == old(store)@,
            id@.len() > 0 && !has_note(old(store)@.notes, id@) ==> not_found(r, "Note"@, id@)
                && final(store)@ == old(store)@,
            has_note(old(store)@.notes, id@) ==> match r {
                Ok(n) => {
                    let src = old(store)@.notes[note_index(old(store)@.notes, id@)];
                    &&& n@.id.len() == 36
                    &&& n@ == (NoteView {
                        id: n@.id,
                        title: match new_title {
                            Some(t) => t@,
                            None => src.title,
                        },
                        created_at: n@.created_at,
                        updated_at: n@.created_at,
                        ..src
                    })
                    &&& final(store)@ == (StoreTables { notes: old(store)@.notes.push(n@), ..old(store)@ })
                },
                Err(e) => fails_with(r, ErrorKind::Conflict) && final(store)@ == old(store)@
                    && exists|i: int| 0 <= i < old(store)@.notes.len() && old(store)@.notes[i].id.len() == 36,
            },
    {
        let new_id = new_id();
        let now = now_timestamp();
        Self::duplicate_note_at(store, id, new_title, new_id, now)
    }

    /// The `limit` most recently updated notes of a project, most recent
    /// first (all of them when there are fewer). InvalidInput on an empty
    /// project id or a limit that is not positive.
    pub fn list_recent_notes(store: &DbService, project_id: String, limit: i32) -> (r: AppResult<Vec<Note>>)
        requires
            store.wf(),
        ensures
            project_id@.len() == 0 || limit <= 0 ==> fails_with(r, ErrorKind::InvalidInput),
            project_id@.len() > 0 && limit > 0 ==> {
                let all = project_notes(store@.notes, project_id@);
                let v = notes_view(r->Ok_0@);
                &&& r is Ok
                &&& v.len() == if all.len() < limit { all.len() as int } else { limit as int }
                &&& forall|a: int, b: int| 0 <= a < b < v.len() ==> v[a].updated_at >= v[b].updated_at
                &&& forall|k: int| 0 <= k < v.len() ==> all.contains(#[trigger] v[k])
                &&& forall|m: NoteView| #[trigger] all.contains(m) && !v.contains(m) ==> forall|k: int|
                    0 <= k < v.len() ==> v[k].updated_at >= m.updated_at
            },
    {
        let all = match Self::list_notes(store, project_id) {
            Ok(v) => v,
            Err(e) => {
                return Err(e);
            },
        };
        if limit <= 0 {
            return Err(AppError::InvalidInput(String::from_str("Limit must be greater than 0")));
        }
        let ghost av = notes_view(all@);
        let mut keys: Vec<i64> = Vec::new();
        let mut j: usize = 0;
        while j < all.len()
            invariant
                j <= all@.len(),
                keys@.len() == j,
                forall|k: int| 0 <= k < j ==> keys@[k] == all@[k].updated_at,
            decreases all@.len() - j,
        {
            keys.push(all[j].updated_at);
            j = j + 1;
        }
        let order = positions_by_key_desc(&keys);
        let count: usize = if all.len() < limit as usize {
            all.len()
        } else {
            limit as usize
        };
        let mut out: Vec<Note> = Vec::new();
        let mut k: usize = 0;
        while k < count
            invariant
                av == notes_view(all@),
                count <= all@.len(),
                order@.len() == all@.len(),
                keys@.len() == all@.len(),
                forall|m: int| 0 <= m < all@.len() ==> keys@[m] == all@[m].updated_at,
                forall|m: int| 0 <= m < order@.len() ==> order@[m] < all@.len(),
                k <= count,
                out@.len() == k,
                forall|m: int| 0 <= m < k ==> #[trigger] out@[m]@ == av[order@[m] as int],
            decreases count - k,
        {
            out.push(all[order[k]].duplicate());
            k = k + 1;
        }
        proof {
            let v = notes_view(out@);
            assert forall|a: int, b: int| 0 <= a < b < v.len() implies v[a].updated_at >= v[b].updated_at by {
                assert(v[a] == out@[a]@ && v[b] == out@[b]@);
                assert(keys@[order@[a] as int] >= keys@[order@[b] as int]);
            }
            assert forall|m: int| 0 <= m < v.len() implies av.contains(#[trigger] v[m]) by {
                assert(v[m] == out@[m]@);
                assert(av[order@[m] as int] == v[m]);
            }
            assert forall|x: NoteView| #[trigger] av.contains(x) && !v.contains(x) implies forall|m: int|
                0 <= m < v.len() ==> v[m].updated_at >= x.updated_at by {
                let y = choose|y: int| 0 <= y < av.len() && av[y] == x;
                assert(order@.contains(y as usize));
                let p = choose|p: int| 0 <= p < order@.len() && order@[p] == y as usize;
                if p < v.len() {
                    assert(v[p] == out@[p]@);
                    assert(v[p] == x);
                }
                assert forall|m: int| 0 <= m < v.len() implies v[m].updated_at >= x.updated_at by {
                    assert(v[m] == out@[m]@);
                    assert(keys@[order@[m] as int] >= keys@[order@[p] as int]);
                }
            }
        }
        Ok(out)
    }

    /// The distinct tags used by the notes of a project, each once, in order
    /// of first use.
    pub fn get_all_tags(store: &DbService, project_id: String) -> (r: AppResult<Vec<String>>)
        requires
            store.wf(),
        ensures
            project_id@.len() == 0 ==> fails_with(r, ErrorKind::InvalidInput),
            project_id@.len() > 0 ==> {
                let v = strs_view(r->Ok_0@);
                &&& r is Ok
                &&& v.no_duplicates()
                &&& forall|t: Seq<char>| v.contains(t) <==> project_uses_tag(store@.notes, project_id@, t)
            },
    {
        if project_id.as_str().is_empty() {
            return Err(AppError::InvalidInput(String::from_str("Project ID cannot be empty")));
        }
        let ghost ns = store@.notes;
        let n = store.note_count();
        let mut out: Vec<String> = Vec::new();
        let mut j: usize = 0;
        while j < n
            invariant
                ns == store@.notes,
                n == ns.len(),
                j <= n,
                strs_view(out@).no_duplicates(),
                forall|t: Seq<char>|
                    strs_view(out@).contains(t) <==> exists|i: int|
                        0 <= i < j && ns[i].project_id == project_id@ && ns[i].tags is Some && (
                        #[trigger] ns[i]).tags->0.contains(t),
            decreases n - j,
        {
            let x = store.note_at(j);
            if same_text(&x.project_id, &project_id) {
                if let Some(own) = &x.tags {
                    let mut k: usize = 0;
                    while k < own.len()
                        invariant
                            ns == store@.notes,
                            n == ns.len(),
                            j < n,
                            x@ == ns[j as int],
                            x.tags == Some(*own),
                            x@.project_id == project_id@,
                            k <= own@.len(),
                            strs_view(out@).no_duplicates(),
                            forall|t: Seq<char>|
                                strs_view(out@).contains(t) <==> (exists|i: int|
                                    0 <= i < j && ns[i].project_id == project_id@ && ns[i].tags is Some
                                        && (#[trigger] ns[i]).tags->0.contains(t)) || exists|m: int|
                                    0 <= m < k && t == #[trigger] strs_view(own@)[m],
                        decreases own@.len() - k,
                    {
                        let ghost prev = out@;
                        if !holds_text(&out, &own[k]) {
                            out.push(own[k].clone());
                            proof {
                                assert(strs_view(out@) =~= strs_view(prev).push(own@[k as int]@));
                                assert forall|t: Seq<char>| strs_view(out@).contains(t) <==> (exists|i: int|
                                    0 <= i < j && ns[i].project_id == project_id@ && ns[i].tags is Some
                                        && (#[trigger] ns[i]).tags->0.contains(t)) || exists|m: int|
                                    0 <= m < k + 1 && t == #[trigger] strs_view(own@)[m] by {
                                    if t == own@[k as int]@ {
                                        assert(t == strs_view(own@)[k as int]);
                                        assert(strs_view(out@)[prev.len() as int] == t);
                                    }
                                    if strs_view(prev).contains(t) {
                                        let q = choose|q: int| 0 <= q < prev.len() && strs_view(prev)[q] == t;
                                        assert(strs_view(out@)[q] == t);
                                    }
                                    if strs_view(out@).contains(t) && t != own@[k as int]@ {
                                        let q = choose|q: int| 0 <= q < out@.len() && strs_view(out@)[q] == t;
                                        assert(q < prev.len());
                                        assert(strs_view(prev)[q] == t);
                                    }
                                }
                            }
                        } else {
                            proof {
                                assert forall|t: Seq<char>| strs_view(out@).contains(t) <==> (exists|i: int|
                                    0 <= i < j && ns[i].project_id == project_id@ && ns[i].tags is Some
                                        && (#[trigger] ns[i]).tags->0.contains(t)) || exists|m: int|
                                    0 <= m < k + 1 && t == #[trigger] strs_view(own@)[m] by {
                                    if t == strs_view(own@)[k as int] {
                                        assert(strs_view(out@).contains(t));
                                    }
                                }
                            }
                        }
                        k = k + 1;
                    }
                    proof {
                        assert forall|t: Seq<char>| strs_view(out@).contains(t) <==> exists|i: int|
                            0 <= i < j + 1 && ns[i].project_id == project_id@ && ns[i].tags is Some && (
                            #[trigger] ns[i]).tags->0.contains(t) by {
                            if exists|m: int| 0 <= m < own@.len() && t == #[trigger] strs_view(own@)[m] {
                                let m = choose|m: int| 0 <= m < own@.len() && t == #[trigger] strs_view(own@)[m];
                                assert(ns[j as int].tags->0[m] == t);
                                assert(ns[j as int].tags->0.contains(t));
                            }
                            if ns[j as int].tags->0.contains(t) {
                                let m = choose|m: int| 0 <= m < ns[j as int].tags->0.len() && ns[j as int].tags->0[m] == t;
                                assert(t == strs_view(own@)[m]);
                            }
                        }
                    }
                } else {
                    proof {
                        assert forall|t: Seq<char>| strs_view(out@).contains(t) <==> exists|i: int|
                            0 <= i < j + 1 && ns[i].project_id == project_id@ && ns[i].tags is Some && (
                            #[trigger] ns[i]).tags->0.contains(t) by {
                            if exists|i: int|
                                0 <= i < j + 1 && ns[i].project_id == project_id@ && ns[i].tags is Some && (
                                #[trigger] ns[i]).tags->0.contains(t) {
                                let i = choose|i: int|
                                    0 <= i < j + 1 && ns[i].project_id == project_id@ && ns[i].tags is Some && (
                                    #[trigger] ns[i]).tags->0.contains(t);
                                assert(i != j);
                            }
                        }
                    }
                }
            } else {
                proof {
                    assert forall|t: Seq<char>| strs_view(out@).contains(t) <==> exists|i: int|
                        0 <= i < j + 1 && ns[i].project_id == project_id@ && ns[i].tags is Some && (
                        #[trigger] ns[i]).tags->0.contains(t) by {
                        if exists|i: int|
                            0 <= i < j + 1 && ns[i].project_id == project_id@ && ns[i].tags is Some && (
                            #[trigger] ns[i]).tags->0.contains(t) {
                            let i = choose|i: int|
                                0 <= i < j + 1 && ns[i].project_id == project_id@ && ns[i].tags is Some && (
                                #[trigger] ns[i]).tags->0.contains(t);
                            assert(i != j);
                        }
                    }
                }
            }
            j = j + 1;
        }
        Ok(out)
    }
}

} // verus!
