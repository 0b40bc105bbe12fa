//! Where a note stands in the tree of notes, and who wrote it.
use crate::hash;
use crate::ordmap;
use crate::text;
use vstd::prelude::*;

verus! {

/// The path of the note of an object in the tree of notes.
pub open spec fn note_path_text(oid: Seq<char>) -> Seq<char> {
    let n = if oid.len() < 2 {
        oid.len() as int
    } else {
        2
    };
    oid.take(n) + seq!['/'] + oid.skip(n)
}

/// The path of the note of an object in the tree of notes: its id, in a directory
/// named by the first two digits.
pub fn note_path(oid: &str) -> (out: String)
    ensures
        out@ == note_path_text(oid@),
{
    let v = text::chars(oid);
    let n: usize = if v.len() < 2 {
        v.len()
    } else {
        2
    };
    let mut out = text::string_of(&v, 0, n);
    assert(out@ =~= oid@.take(n as int));
    out.push('/');
    let rest = text::string_of(&v, n, v.len());
    assert(rest@ =~= oid@.skip(n as int));
    out.append(rest.as_str());
    assert(out@ =~= note_path_text(oid@));
    out
}

/// Two objects have the note at one path only where they are the same.
pub proof fn law_note_path_tells_objects_apart(oid: Seq<char>, other: Seq<char>)
    requires
        note_path_text(oid) == note_path_text(other),
        hash::is_free_of(oid, '/'),
        hash::is_free_of(other, '/'),
    ensures
        oid == other,
{
    let p = note_path_text(oid);
    let q = note_path_text(other);
    let n = if oid.len() < 2 {
        oid.len() as int
    } else {
        2
    };
    let m = if other.len() < 2 {
        other.len() as int
    } else {
        2
    };
    assert(p[n] == '/');
    assert(q[m] == '/');
    if n < m {
        assert(q[n] == other[n]);
    }
    if m < n {
        assert(p[m] == oid[m]);
    }
    assert(p.len() == oid.len() + 1);
    assert(oid =~= p.take(n) + p.skip(n + 1));
    assert(other =~= q.take(m) + q.skip(m + 1));
}

/// The text of a note that is to be stored; a note that is blank is taken away.
pub fn stored_note<'a>(note: Option<&'a str>) -> (r: Option<&'a str>)
    ensures
        hash::opt_str(r) == (if note is Some && !text::is_blank(note->0@) {
            Some(note->0@)
        } else {
            None
        }),
{
    match note {
        Some(t) => if text::blank(t) {
            None
        } else {
            Some(t)
        },
        None => None,
    }
}

/// What a change of the notes is called.
pub fn commit_message() -> (r: &'static str)
    ensures
        r@ == "git-review: update notes\n"@,
{
    "git-review: update notes\n"
}

/// The name of who writes a note: that of the author, else that of the committer,
/// else that of the user.
pub fn author_name(author: Option<String>, committer: Option<String>, user: Option<String>) -> (r:
    String)
    ensures
        r@ == (match (author, committer, user) {
            (Some(a), _, _) => a@,
            (None, Some(c), _) => c@,
            (None, None, Some(u)) => u@,
            (None, None, None) => "git-review"@,
        }),
{
    match author {
        Some(a) => a,
        None => match committer {
            Some(c) => c,
            None => match user {
                Some(u) => u,
                None => "git-review".to_string(),
            },
        },
    }
}

/// The address of who writes a note.
pub fn author_email(author: Option<String>, committer: Option<String>) -> (r: String)
    ensures
        r@ == (match (author, committer) {
            (Some(a), _) => a@,
            (None, Some(c)) => c@,
            (None, None) => "git-review@localhost"@,
        }),
{
    match author {
        Some(a) => a,
        None => match committer {
            Some(c) => c,
            None => "git-review@localhost".to_string(),
        },
    }
}

/// The name for new notes: the usual one with the time, and with a number where that
/// name is taken.
pub open spec fn new_ref_text(seconds: nat, number: nat) -> Seq<char> {
    let name = crate::git::default_notes_ref_text() + "-"@ + text::decimal(seconds);
    if number == 0 {
        name
    } else {
        name + "-"@ + text::decimal(number)
    }
}

/// The name for new notes, the `number`-th to be tried.
pub fn generate_notes_ref(seconds: u64, number: u64) -> (out: String)
    ensures
        out@ == new_ref_text(seconds as nat, number as nat),
{
    let mut out = crate::git::default_notes_ref().to_string();
    out.append("-");
    text::push_decimal(&mut out, seconds);
    assert(out@ =~= crate::git::default_notes_ref_text() + "-"@ + text::decimal(seconds as nat));
    if number > 0 {
        let ghost name = out@;
        out.append("-");
        text::push_decimal(&mut out, number);
        assert(out@ =~= name + "-"@ + text::decimal(number as nat));
    }
    out
}

/// Whether notes of this program are kept under a name.
pub open spec fn is_remark_ref(name: Seq<char>) -> bool {
    name == crate::git::default_notes_ref_text() || text::occurs_at(name, "refs/notes/remark-"@, 0)
        || text::occurs_at(name, "refs/notes/remark."@, 0) || text::occurs_at(
        name,
        "refs/notes/remark/"@,
        0,
    )
}

/// Whether notes of this program are kept under a name.
pub fn is_remark_ref_name(name: &str) -> (r: bool)
    ensures
        r == is_remark_ref(name@),
{
    text::same(name, crate::git::default_notes_ref()) || text::starts_with(
        name,
        "refs/notes/remark-",
    ) || text::starts_with(name, "refs/notes/remark.") || text::starts_with(
        name,
        "refs/notes/remark/",
    )
}

/// Those of some names under which notes of this program are kept.
pub open spec fn remark_refs(names: Seq<Seq<char>>) -> Map<Seq<char>, Seq<char>> {
    Map::new(|p: Seq<char>| names.contains(p) && is_remark_ref(p), |p: Seq<char>| p)
}

/// Those of some names under which notes of this program are kept, in order, each
/// once.
pub fn collect_remark_refs(names: &Vec<String>) -> (out: Vec<String>)
    ensures
        text::views(out@) == ordmap::names_of(remark_refs(text::views(names@))),
{
    let ghost all = text::views(names@);
    let mut set = ordmap::OrdMap::<String, String>::new();
    let mut i: usize = 0;
    assert(set@ =~= remark_refs(all.take(0)));
    while i < names.len()
        invariant
            i <= names.len() == all.len(),
            all == text::views(names@),
            set@ == remark_refs(all.take(i as int)),
        decreases names.len() - i,
    {
        proof {
            ordmap::lemma_set_push(all.take(i as int), all[i as int]);
            assert(all.take(i + 1) =~= all.take(i as int).push(all[i as int]));
            assert forall|q: Seq<char>| #[trigger]
                all.take(i + 1).contains(q) == (all.take(i as int).contains(q) || q
                    == all[i as int]) by {
                assert(ordmap::set_of(all.take(i + 1)).contains_key(q)
                    == all.take(i + 1).contains(q));
                assert(ordmap::set_of(all.take(i as int)).contains_key(q)
                    == all.take(i as int).contains(q));
            }
        }
        if is_remark_ref_name(names[i].as_str()) {
            set.insert(names[i].clone(), names[i].clone());
        }
        assert(set@ =~= remark_refs(all.take(i + 1)));
        i += 1;
    }
    assert(all.take(i as int) =~= all);
    ordmap::names(&set)
}

/// New notes are found when all notes are deleted.
pub proof fn law_new_notes_are_collected(seconds: nat, number: nat)
    ensures
        is_remark_ref(new_ref_text(seconds, number)),
{
    reveal_strlit("refs/notes/remark");
    reveal_strlit("-");
    reveal_strlit("refs/notes/remark-");
    let start = crate::git::default_notes_ref_text() + "-"@;
    assert(start =~= "refs/notes/remark-"@);
    let name = new_ref_text(seconds, number);
    assert(name.subrange(0, start.len() as int) =~= start);
    assert(text::occurs_at(name, "refs/notes/remark-"@, 0));
}

/// Whether the configuration has to go back to the usual notes after all were
/// deleted: it named others of this program.
pub fn resets_config(configured: &str) -> (r: bool)
    ensures
        r == (is_remark_ref(configured@) && configured@ != crate::git::default_notes_ref_text()),
{
    is_remark_ref_name(configured) && !text::same(configured, crate::git::default_notes_ref())
}

} // verus!
