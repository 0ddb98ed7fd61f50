//! Sticky-bucket assignment documents.
//!
//! A document pins the variations a user has been assigned, keyed by
//! attribute name and value. The store itself is supplied by the caller;
//! during one evaluation the documents live in a plain in-memory list that
//! the evaluation threads through and returns, so the engine stays pure.
//!
//! Contracts speak of documents through their view: the attribute pair and
//! the assignment pairs as character sequences.

use vstd::prelude::*;

use crate::numstr::u64_dec_chars;

verus! {

use vstd::string::StringExecFns;

/// One user's assignments under one attribute: pairs of assignment key
/// (`<experimentKey>__<bucketVersion>`) and variation key.
#[derive(Debug)]
pub struct StickyAssignmentDoc {
    pub attribute_name: String,
    pub attribute_value: String,
    pub assignments: Vec<(String, String)>,
}

/// The view of one document: attribute name, attribute value, and the
/// assignment pairs, all as character sequences.
pub type StickyDocView = (Seq<char>, Seq<char>, Seq<(Seq<char>, Seq<char>)>);

/// The mathematical content of a document: attribute name, attribute
/// value, and the assignment pairs.
pub open spec fn doc_view(d: StickyAssignmentDoc) -> (Seq<char>, Seq<char>, Seq<
    (Seq<char>, Seq<char>),
>) {
    (
        d.attribute_name@,
        d.attribute_value@,
        d.assignments@.map_values(|p: (String, String)| (p.0@, p.1@)),
    )
}

/// The view of a document list.
pub open spec fn docs_view(docs: Seq<StickyAssignmentDoc>) -> Seq<
    (Seq<char>, Seq<char>, Seq<(Seq<char>, Seq<char>)>),
> {
    docs.map_values(|d: StickyAssignmentDoc| doc_view(d))
}

/// The first document for the attribute pair, by index.
pub open spec fn spec_find_doc(
    docs: Seq<(Seq<char>, Seq<char>, Seq<(Seq<char>, Seq<char>)>)>,
    an: Seq<char>,
    av: Seq<char>,
) -> Option<int>
    decreases docs,
{
    if docs.len() == 0 {
        None
    } else if docs[0].0 == an && docs[0].1 == av {
        Some(0)
    } else {
        match spec_find_doc(docs.drop_first(), an, av) {
            Some(i) => Some(1 + i),
            None => None,
        }
    }
}

/// The index of the first assignment under a key.
pub open spec fn spec_find_assignment_idx(assignments: Seq<(Seq<char>, Seq<char>)>, key: Seq<char>) -> Option<
    int,
>
    decreases assignments,
{
    if assignments.len() == 0 {
        None
    } else if assignments[0].0 == key {
        Some(0)
    } else {
        match spec_find_assignment_idx(assignments.drop_first(), key) {
            Some(i) => Some(1 + i),
            None => None,
        }
    }
}

/// The value stored under an assignment key.
pub open spec fn spec_find_assignment(assignments: Seq<(Seq<char>, Seq<char>)>, key: Seq<char>) -> Option<
    Seq<char>,
> {
    match spec_find_assignment_idx(assignments, key) {
        Some(i) => Some(assignments[i].1),
        None => None,
    }
}

/// The stored variation key for an attribute pair and assignment key.
pub open spec fn spec_stored_assignment(
    docs: Seq<(Seq<char>, Seq<char>, Seq<(Seq<char>, Seq<char>)>)>,
    an: Seq<char>,
    av: Seq<char>,
    key: Seq<char>,
) -> Option<Seq<char>> {
    match spec_find_doc(docs, an, av) {
        Some(i) => spec_find_assignment(docs[i].2, key),
        None => None,
    }
}

/// Whether a document list records the given assignment.
pub open spec fn spec_has_assignment(
    docs: Seq<(Seq<char>, Seq<char>, Seq<(Seq<char>, Seq<char>)>)>,
    an: Seq<char>,
    av: Seq<char>,
    key: Seq<char>,
    value: Seq<char>,
) -> bool {
    spec_stored_assignment(docs, an, av, key) == Some(value)
}

/// The documents after recording one assignment: the document for the pair
/// gains or updates the entry in place; a pair without a document gains one
/// at the end.
pub open spec fn spec_save_assignment(
    docs: Seq<(Seq<char>, Seq<char>, Seq<(Seq<char>, Seq<char>)>)>,
    an: Seq<char>,
    av: Seq<char>,
    key: Seq<char>,
    value: Seq<char>,
) -> Seq<(Seq<char>, Seq<char>, Seq<(Seq<char>, Seq<char>)>)> {
    match spec_find_doc(docs, an, av) {
        None => docs.push((an, av, seq![(key, value)])),
        Some(i) => {
            let assigns = docs[i].2;
            match spec_find_assignment_idx(assigns, key) {
                None => docs.update(i, (an, av, assigns.push((key, value)))),
                Some(j) => docs.update(i, (an, av, assigns.update(j, (key, value)))),
            }
        },
    }
}

/// The assignment key of an experiment and bucket version:
/// `<experimentKey>__<bucketVersion>`.
pub open spec fn spec_assignment_key(experiment_key: Seq<char>, bucket_version: nat) -> Seq<char> {
    experiment_key + seq!['_', '_'] + u64_dec_chars(bucket_version)
}

/// Builds the assignment key, as [`spec_assignment_key`] states it.
pub fn assignment_key(experiment_key: &str, bucket_version: u64) -> (r: String)
    ensures
        r@ == spec_assignment_key(experiment_key@, bucket_version as nat),
{
    let mut k = experiment_key.to_owned();
    k.append("__");
    proof {
        reveal_strlit("__");
        assert("__"@ =~= seq!['_', '_']);
    }
    let digits = crate::numstr::u64_to_dec_string(bucket_version);
    k.append(digits.as_str());
    k
}

/// The index of the document for the attribute pair, if any.
pub fn find_doc(docs: &Vec<StickyAssignmentDoc>, an: &str, av: &str) -> (r: Option<usize>)
    ensures
        match r {
            Some(i) => i < docs@.len() && spec_find_doc(docs_view(docs@), an@, av@) == Some(
                i as int,
            ),
            None => spec_find_doc(docs_view(docs@), an@, av@) is None,
        },
{
    let ghost dv = docs_view(docs@);
    let mut i: usize = 0;
    proof {
        assert(dv.skip(0) =~= dv);
    }
    while i < docs.len()
        invariant
            i <= docs@.len(),
            dv == docs_view(docs@),
            dv.len() == docs@.len(),
            spec_find_doc(dv, an@, av@) == match spec_find_doc(dv.skip(i as int), an@, av@) {
                Some(k) => Some(i + k),
                None => None::<int>,
            },
        decreases docs@.len() - i,
    {
        proof {
            assert(dv.skip(i as int)[0] == dv[i as int]);
            assert(dv.skip(i as int).drop_first() =~= dv.skip(i + 1));
            assert(dv[i as int] == doc_view(docs@[i as int]));
        }
        if crate::model_public::str_eq(docs[i].attribute_name.as_str(), an)
            && crate::model_public::str_eq(docs[i].attribute_value.as_str(), av) {
            return Some(i);
        }
        i = i + 1;
    }
    proof {
        assert(dv.skip(dv.len() as int).len() == 0);
    }
    None
}

/// The index of the assignment under a key, if any.
pub fn find_assignment_idx(doc: &StickyAssignmentDoc, key: &str) -> (r: Option<usize>)
    ensures
        match r {
            Some(i) => i < doc.assignments@.len() && spec_find_assignment_idx(
                doc_view(*doc).2,
                key@,
            ) == Some(i as int),
            None => spec_find_assignment_idx(doc_view(*doc).2, key@) is None,
        },
{
    let ghost av = doc_view(*doc).2;
    let mut i: usize = 0;
    proof {
        assert(av.skip(0) =~= av);
    }
    while i < doc.assignments.len()
        invariant
            i <= doc.assignments@.len(),
            av == doc_view(*doc).2,
            av.len() == doc.assignments@.len(),
            spec_find_assignment_idx(av, key@) == match spec_find_assignment_idx(
                av.skip(i as int),
                key@,
            ) {
                Some(k) => Some(i + k),
                None => None::<int>,
            },
        decreases doc.assignments@.len() - i,
    {
        proof {
            assert(av.skip(i as int)[0] == av[i as int]);
            assert(av.skip(i as int).drop_first() =~= av.skip(i + 1));
        }
        if crate::model_public::str_eq(doc.assignments[i].0.as_str(), key) {
            return Some(i);
        }
        i = i + 1;
    }
    proof {
        assert(av.skip(av.len() as int).len() == 0);
    }
    None
}

/// Looks a stored variation key up, as [`spec_stored_assignment`] states it.
pub fn stored_assignment<'a>(
    docs: &'a Vec<StickyAssignmentDoc>,
    an: &str,
    av: &str,
    key: &str,
) -> (r: Option<&'a String>)
    ensures
        match r {
            Some(v) => spec_stored_assignment(docs_view(docs@), an@, av@, key@) == Some(v@),
            None => spec_stored_assignment(docs_view(docs@), an@, av@, key@) is None,
        },
{
    match find_doc(docs, an, av) {
        Some(i) => {
            proof {
                assert(docs_view(docs@)[i as int] == doc_view(docs@[i as int]));
            }
            match find_assignment_idx(&docs[i], key) {
                Some(j) => {
                    proof {
                        assert(doc_view(docs@[i as int]).2[j as int] == (
                        docs@[i as int].assignments@[j as int].0@,
                        docs@[i as int].assignments@[j as int].1@,
                        ));
                    }
                    Some(&docs[i].assignments[j].1)
                },
                None => None,
            }
        },
        None => None,
    }
}

/// Records one assignment, as [`spec_save_assignment`] states it; the flag
/// reports whether anything changed.
pub fn save_assignment(
    docs: Vec<StickyAssignmentDoc>,
    an: &str,
    av: &str,
    key: &str,
    value: &str,
) -> (r: (Vec<StickyAssignmentDoc>, bool))
    ensures
        docs_view(r.0@) =~~= spec_save_assignment(docs_view(docs@), an@, av@, key@, value@),
        r.1 == !spec_has_assignment(docs_view(docs@), an@, av@, key@, value@),
{
    let ghost dv = docs_view(docs@);
    let mut docs = docs;
    match find_doc(&docs, an, av) {
        Some(i) => {
            proof {
                assert(dv[i as int] == doc_view(docs@[i as int]));
            }
            match find_assignment_idx(&docs[i], key) {
                Some(j) => {
                    proof {
                        assert(doc_view(docs@[i as int]).2[j as int] == (
                        docs@[i as int].assignments@[j as int].0@,
                        docs@[i as int].assignments@[j as int].1@,
                        ));
                    }
                    let changed = !crate::model_public::str_eq(
                        docs[i].assignments[j].1.as_str(),
                        value,
                    );
                    let mut assignments = copy_assignments(&docs[i].assignments);
                    assignments.set(j, (key.to_owned(), value.to_owned()));
                    let doc = StickyAssignmentDoc {
                        attribute_name: docs[i].attribute_name.as_str().to_owned(),
                        attribute_value: docs[i].attribute_value.as_str().to_owned(),
                        assignments,
                    };
                    let ghost old_docs = docs@;
                    docs.set(i, doc);
                    proof {
                        assert(docs_view(docs@) =~~= spec_save_assignment(
                            dv,
                            an@,
                            av@,
                            key@,
                            value@,
                        )) by {
                            lemma_find_doc_some(dv, an@, av@, i as int);
                            assert(forall|k: int|
                                0 <= k < docs@.len() && k != i ==> docs@[k] == old_docs[k]);
                            assert(doc_view(docs@[i as int]).2 =~~= dv[i as int].2.update(
                                j as int,
                                (key@, value@),
                            ));
                        }
                    }
                    (docs, changed)
                },
                None => {
                    let mut assignments = copy_assignments(&docs[i].assignments);
                    assignments.push((key.to_owned(), value.to_owned()));
                    let doc = StickyAssignmentDoc {
                        attribute_name: docs[i].attribute_name.as_str().to_owned(),
                        attribute_value: docs[i].attribute_value.as_str().to_owned(),
                        assignments,
                    };
                    let ghost old_docs = docs@;
                    docs.set(i, doc);
                    proof {
                        assert(docs_view(docs@) =~~= spec_save_assignment(
                            dv,
                            an@,
                            av@,
                            key@,
                            value@,
                        )) by {
                            lemma_find_doc_some(dv, an@, av@, i as int);
                            assert(forall|k: int|
                                0 <= k < docs@.len() && k != i ==> docs@[k] == old_docs[k]);
                            assert(doc_view(docs@[i as int]).2 =~~= dv[i as int].2.push(
                                (key@, value@),
                            ));
                        }
                    }
                    (docs, true)
                },
            }
        },
        None => {
            let mut assignments: Vec<(String, String)> = Vec::new();
            assignments.push((key.to_owned(), value.to_owned()));
            let doc = StickyAssignmentDoc {
                attribute_name: an.to_owned(),
                attribute_value: av.to_owned(),
                assignments,
            };
            let ghost old_docs = docs@;
            docs.push(doc);
            proof {
                assert(docs_view(docs@) =~~= spec_save_assignment(dv, an@, av@, key@, value@))
                    by {
                    assert(forall|k: int| 0 <= k < old_docs.len() ==> docs@[k] == old_docs[k]);
                    assert(doc_view(docs@[old_docs.len() as int]).2 =~~= seq![(key@, value@)]);
                }
            }
            (docs, true)
        },
    }
}

/// A copy of an assignment list with the same view.
fn copy_assignments(assignments: &Vec<(String, String)>) -> (r: Vec<(String, String)>)
    ensures
        r@.len() == assignments@.len(),
        forall|j: int|
            0 <= j < r@.len() ==> (#[trigger] r@[j]).0@ == assignments@[j].0@ && r@[j].1@
                == assignments@[j].1@,
{
    let mut r: Vec<(String, String)> = Vec::new();
    let mut i: usize = 0;
    while i < assignments.len()
        invariant
            i <= assignments@.len(),
            r@.len() == i,
            forall|j: int|
                0 <= j < i ==> (#[trigger] r@[j]).0@ == assignments@[j].0@ && r@[j].1@
                    == assignments@[j].1@,
        decreases assignments@.len() - i,
    {
        r.push((assignments[i].0.as_str().to_owned(), assignments[i].1.as_str().to_owned()));
        i = i + 1;
    }
    r
}

/// Saving is idempotent: recording an assignment that is already recorded
/// leaves the documents as they are, so a repeated run writes nothing new.
pub proof fn lemma_save_assignment_idempotent(
    docs: Seq<(Seq<char>, Seq<char>, Seq<(Seq<char>, Seq<char>)>)>,
    an: Seq<char>,
    av: Seq<char>,
    key: Seq<char>,
    value: Seq<char>,
)
    ensures
        spec_has_assignment(spec_save_assignment(docs, an, av, key, value), an, av, key, value),
        spec_has_assignment(docs, an, av, key, value) ==> spec_save_assignment(
            docs,
            an,
            av,
            key,
            value,
        ) =~= docs,
        spec_save_assignment(
            spec_save_assignment(docs, an, av, key, value),
            an,
            av,
            key,
            value,
        ) =~= spec_save_assignment(docs, an, av, key, value),
        spec_save_assignment(docs, an, av, key, value).len() == if spec_find_doc(docs, an, av)
            is Some {
            docs.len()
        } else {
            docs.len() + 1
        },
{
    let saved = spec_save_assignment(docs, an, av, key, value);
    match spec_find_doc(docs, an, av) {
        None => {
            lemma_find_doc_append(docs, an, av, (an, av, seq![(key, value)]));
            assert(saved[docs.len() as int].2 == seq![(key, value)]);
            assert(spec_find_assignment_idx(seq![(key, value)], key) == Some(0int));
        },
        Some(i) => {
            lemma_find_doc_some(docs, an, av, i);
            let assigns = docs[i].2;
            match spec_find_assignment_idx(assigns, key) {
                None => {
                    lemma_find_doc_stable(docs, saved, an, av, i);
                    lemma_find_assignment_push(assigns, key, value);
                },
                Some(j) => {
                    lemma_find_doc_stable(docs, saved, an, av, i);
                    lemma_find_assignment_update(assigns, key, value, j);
                    if spec_has_assignment(docs, an, av, key, value) {
                        assert(assigns[j].1 == value);
                        assert(assigns.update(j, (key, value)) =~= assigns);
                        assert(saved =~= docs);
                    }
                },
            }
        },
    }
    let saved2 = spec_save_assignment(saved, an, av, key, value);
    assert(spec_has_assignment(saved, an, av, key, value));
    match spec_find_doc(saved, an, av) {
        None => {
            assert(false);
        },
        Some(i2) => {
            lemma_find_doc_some(saved, an, av, i2);
            match spec_find_assignment_idx(saved[i2].2, key) {
                None => {
                    assert(false);
                },
                Some(j2) => {
                    assert(saved[i2].2[j2].1 == value);
                    assert(saved[i2].2.update(j2, (key, value)) =~= saved[i2].2);
                    assert(saved2 =~= saved);
                },
            }
        },
    }
}

proof fn lemma_find_doc_some(
    docs: Seq<(Seq<char>, Seq<char>, Seq<(Seq<char>, Seq<char>)>)>,
    an: Seq<char>,
    av: Seq<char>,
    i: int,
)
    requires
        spec_find_doc(docs, an, av) == Some(i),
    ensures
        0 <= i < docs.len(),
        docs[i].0 == an,
        docs[i].1 == av,
    decreases docs.len(),
{
    if docs.len() > 0 {
        if docs[0].0 == an && docs[0].1 == av {
        } else {
            lemma_find_doc_some(docs.drop_first(), an, av, i - 1);
            assert(docs.drop_first()[i - 1] == docs[i]);
        }
    }
}

proof fn lemma_find_doc_stable(
    docs: Seq<(Seq<char>, Seq<char>, Seq<(Seq<char>, Seq<char>)>)>,
    new_docs: Seq<(Seq<char>, Seq<char>, Seq<(Seq<char>, Seq<char>)>)>,
    an: Seq<char>,
    av: Seq<char>,
    i: int,
)
    requires
        spec_find_doc(docs, an, av) == Some(i),
        new_docs.len() == docs.len(),
        forall|k: int| 0 <= k < docs.len() && k != i ==> new_docs[k] == docs[k],
        new_docs[i].0 == an,
        new_docs[i].1 == av,
    ensures
        spec_find_doc(new_docs, an, av) == Some(i),
    decreases i,
{
    lemma_find_doc_some(docs, an, av, i);
    if i == 0 {
    } else {
        assert(docs.len() > 0);
        assert(!(docs[0].0 == an && docs[0].1 == av));
        assert(new_docs[0] == docs[0]);
        assert(forall|k: int|
            0 <= k < docs.drop_first().len() && k != i - 1 ==> new_docs.drop_first()[k]
                == docs.drop_first()[k]);
        assert(new_docs.drop_first()[i - 1] == new_docs[i]);
        lemma_find_doc_stable(docs.drop_first(), new_docs.drop_first(), an, av, i - 1);
    }
}

proof fn lemma_find_doc_append(
    docs: Seq<(Seq<char>, Seq<char>, Seq<(Seq<char>, Seq<char>)>)>,
    an: Seq<char>,
    av: Seq<char>,
    doc: (Seq<char>, Seq<char>, Seq<(Seq<char>, Seq<char>)>),
)
    requires
        spec_find_doc(docs, an, av) is None,
        doc.0 == an,
        doc.1 == av,
    ensures
        spec_find_doc(docs.push(doc), an, av) == Some(docs.len() as int),
    decreases docs.len(),
{
    if docs.len() == 0 {
        assert(docs.push(doc)[0] == doc);
    } else {
        assert(docs.push(doc)[0] == docs[0]);
        assert(docs.push(doc).drop_first() =~= docs.drop_first().push(doc));
        lemma_find_doc_append(docs.drop_first(), an, av, doc);
    }
}

proof fn lemma_find_assignment_push(
    assigns: Seq<(Seq<char>, Seq<char>)>,
    key: Seq<char>,
    value: Seq<char>,
)
    requires
        spec_find_assignment_idx(assigns, key) is None,
    ensures
        spec_find_assignment_idx(assigns.push((key, value)), key) == Some(assigns.len() as int),
        spec_find_assignment(assigns.push((key, value)), key) == Some(value),
    decreases assigns.len(),
{
    if assigns.len() == 0 {
        assert(assigns.push((key, value))[0] == (key, value));
    } else {
        assert(assigns.push((key, value))[0] == assigns[0]);
        assert(assigns.push((key, value)).drop_first() =~= assigns.drop_first().push((key, value)));
        lemma_find_assignment_push(assigns.drop_first(), key, value);
        assert(assigns.push((key, value))[assigns.len() as int] == (key, value));
    }
}

proof fn lemma_find_assignment_update(
    assigns: Seq<(Seq<char>, Seq<char>)>,
    key: Seq<char>,
    value: Seq<char>,
    j: int,
)
    requires
        spec_find_assignment_idx(assigns, key) == Some(j),
    ensures
        0 <= j < assigns.len(),
        assigns[j].0 == key,
        spec_find_assignment_idx(assigns.update(j, (key, value)), key) == Some(j),
        spec_find_assignment(assigns.update(j, (key, value)), key) == Some(value),
    decreases assigns.len(),
{
    if assigns.len() > 0 {
        if assigns[0].0 == key {
            assert(assigns.update(0, (key, value))[0] == (key, value));
        } else {
            lemma_find_assignment_update(assigns.drop_first(), key, value, j - 1);
            assert(assigns.update(j, (key, value))[0] == assigns[0]);
            assert(assigns.update(j, (key, value)).drop_first() =~= assigns.drop_first().update(
                j - 1,
                (key, value),
            ));
            assert(assigns.drop_first()[j - 1] == assigns[j]);
        }
    }
}

} // verus!
