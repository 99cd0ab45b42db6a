//! The photo ledger: an ordered sequence of photos attached to one
//! business. Adds are unrestricted (duplicates allowed), deletion removes
//! the entries matching the given author and photo identifier together,
//! and update is last-write-wins per author: it evicts every photo by the
//! author and appends the new one.

use vstd::prelude::*;

use crate::business::Photo;

verus! {

/// Whether some photo of `s` was posted by `author`.
pub open spec fn has_photo_author(s: Seq<Photo>, author: Seq<char>) -> bool {
    exists|i: int| 0 <= i < s.len() && s[i].user_name@ == author
}

/// The subsequence of photos posted by `author`, in ledger order.
pub open spec fn photos_by_author(s: Seq<Photo>, author: Seq<char>) -> Seq<Photo>
    decreases s.len(),
{
    if s.len() == 0 {
        s
    } else {
        let rest = photos_by_author(s.drop_last(), author);
        if s.last().user_name@ == author {
            rest.push(s.last())
        } else {
            rest
        }
    }
}

/// The ledger with every photo posted by `author` removed.
pub open spec fn without_photo_author(s: Seq<Photo>, author: Seq<char>) -> Seq<Photo>
    decreases s.len(),
{
    if s.len() == 0 {
        s
    } else {
        let rest = without_photo_author(s.drop_last(), author);
        if s.last().user_name@ == author {
            rest
        } else {
            rest.push(s.last())
        }
    }
}

/// What `delete` leaves behind: a photo goes only when its author and
/// its identifier both match the request.
pub open spec fn photo_delete(s: Seq<Photo>, author: Seq<char>, photo_id: usize) -> Seq<Photo>
    decreases s.len(),
{
    if s.len() == 0 {
        s
    } else {
        let rest = photo_delete(s.drop_last(), author, photo_id);
        if s.last().user_name@ == author && s.last().photo_id == photo_id {
            rest
        } else {
            rest.push(s.last())
        }
    }
}

/// What `update` leaves behind: every photo by the author goes and the
/// new photo appends.
pub open spec fn photo_update(s: Seq<Photo>, author: Seq<char>, p: Photo) -> Seq<Photo> {
    without_photo_author(s, author).push(p)
}

/// Evicting an author really removes every photo by that author.
proof fn lemma_without_photo_author_not_has(s: Seq<Photo>, author: Seq<char>)
    ensures
        !has_photo_author(without_photo_author(s, author), author),
    decreases s.len(),
{
    if s.len() > 0 {
        let dl = s.drop_last();
        lemma_without_photo_author_not_has(dl, author);
        if s.last().user_name@ != author {
            let res = without_photo_author(dl, author).push(s.last());
            assert forall|i: int| 0 <= i < res.len() implies res[i].user_name@ != author by {
                if i < res.len() - 1 {
                    assert(res[i] == without_photo_author(dl, author)[i]);
                }
            }
        }
    }
}

/// A ledger holds a photo by an author exactly when the author filter is
/// non-empty.
proof fn lemma_photos_by_author_empty(s: Seq<Photo>, author: Seq<char>)
    ensures
        photos_by_author(s, author).len() == 0 <==> !has_photo_author(s, author),
    decreases s.len(),
{
    if s.len() > 0 {
        let dl = s.drop_last();
        lemma_photos_by_author_empty(dl, author);
        assert(forall|i: int| 0 <= i < dl.len() ==> dl[i] == s[i]);
        if s.last().user_name@ == author {
            assert(s[s.len() - 1].user_name@ == author);
        } else {
            if has_photo_author(s, author) {
                let w = choose|w: int| 0 <= w < s.len() && s[w].user_name@ == author;
                assert(dl[w].user_name@ == author);
            }
        }
    }
}

/// A photo update is last-write-wins: afterwards the author's photos are
/// exactly the one new photo, however many the ledger held before.
pub proof fn lemma_photo_update_last_write_wins(s: Seq<Photo>, author: Seq<char>, p: Photo)
    requires
        p.user_name@ == author,
    ensures
        photos_by_author(photo_update(s, author, p), author) == seq![p],
{
    let base = without_photo_author(s, author);
    crate::seq_facts::lemma_push_drop_last(base, p);
    lemma_without_photo_author_not_has(s, author);
    lemma_photos_by_author_empty(base, author);
    assert(photos_by_author(base, author) =~= Seq::<Photo>::empty());
    assert(photos_by_author(base.push(p), author) =~= seq![p]);
}

} // verus!
