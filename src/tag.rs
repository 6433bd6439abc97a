//! Agreement between a track's file name (`<artist> - <title>...`) and the
//! title and artist in its tags.
use vstd::prelude::*;

verus! {

/// `needle` occurs in `hay` at `i`.
pub open spec fn occurs_at(hay: Seq<char>, needle: Seq<char>, i: int) -> bool {
    0 <= i && i + needle.len() <= hay.len() && hay.subrange(i, i + needle.len()) == needle
}

/// `needle` occurs somewhere in `hay`.
pub open spec fn occurs(hay: Seq<char>, needle: Seq<char>) -> bool {
    exists|i: int| occurs_at(hay, needle, i)
}

/// The separator between artist and title in a file name.
pub open spec fn separator() -> Seq<char> {
    seq![' ', '-', ' ']
}

/// `i` is the last place where the separator occurs in `s`.
pub open spec fn is_last_separator(s: Seq<char>, i: int) -> bool {
    occurs_at(s, separator(), i) && forall|j: int| i < j ==> !occurs_at(s, separator(), j)
}

/// The file name splits at its last separator into an artist part and a
/// title part, and the tag's title is not in the title part and the tag's
/// artist is not in the artist part.
pub open spec fn tag_mismatch_spec(file_name: Seq<char>, title: Seq<char>, artist: Seq<char>) -> bool {
    exists|i: int|
        is_last_separator(file_name, i) && !occurs(file_name.subrange(i + 3, file_name.len() as int), title)
            && !occurs(file_name.subrange(0, i), artist)
}

fn chars_of(s: &str) -> (r: Vec<char>)
    ensures
        r@ == s@,
{
    let n = s.unicode_len();
    let mut r: Vec<char> = Vec::new();
    let mut i: usize = 0;
    while i < n
        invariant
            n == s@.len(),
            0 <= i <= n,
            r@ == s@.subrange(0, i as int),
        decreases n - i,
    {
        r.push(s.get_char(i));
        assert(r@ =~= s@.subrange(0, i + 1));
        i += 1;
    }
    assert(r@ =~= s@);
    r
}

fn matches_at(hay: &Vec<char>, from: usize, to: usize, needle: &Vec<char>, i: usize) -> (r: bool)
    requires
        from <= to <= hay@.len(),
        from <= i,
    ensures
        r == occurs_at(hay@.subrange(from as int, to as int), needle@, i - from),
{
    if i > to || needle.len() > to - i {
        return false;
    }
    let mut k: usize = 0;
    while k < needle.len()
        invariant
            from <= i <= to <= hay@.len(),
            i + needle@.len() <= to,
            0 <= k <= needle@.len(),
            forall|m: int| 0 <= m < k ==> hay@[i + m] == needle@[m],
        decreases needle@.len() - k,
    {
        if hay[i + k] != needle[k] {
            assert(hay@.subrange(from as int, to as int).subrange(i - from, i - from + needle@.len())[k as int] != needle@[k as int]);
            return false;
        }
        k += 1;
    }
    assert(hay@.subrange(from as int, to as int).subrange(i - from, i - from + needle@.len()) =~= needle@);
    true
}

fn occurs_in(hay: &Vec<char>, from: usize, to: usize, needle: &Vec<char>) -> (r: bool)
    requires
        from <= to <= hay@.len(),
    ensures
        r == occurs(hay@.subrange(from as int, to as int), needle@),
{
    let ghost part = hay@.subrange(from as int, to as int);
    let mut i: usize = from;
    loop
        invariant
            from <= i <= to,
            to <= hay@.len(),
            part == hay@.subrange(from as int, to as int),
            forall|j: int| 0 <= j < i - from ==> !occurs_at(part, needle@, j),
        decreases to - i,
    {
        if matches_at(hay, from, to, needle, i) {
            return true;
        }
        if i == to {
            assert forall|j: int| !occurs_at(part, needle@, j) by {
                if 0 <= j < i - from {
                }
            }
            return false;
        }
        i += 1;
    }
}

/// Whether the file name disagrees with the tags: it has an
/// `<artist> - <title>` shape (split at the last ` - `), the tag's title is
/// not in the title part and the tag's artist is not in the artist part.
pub fn tag_mismatch(file_name: &str, title: &str, artist: &str) -> (r: bool)
    ensures
        r == tag_mismatch_spec(file_name@, title@, artist@),
{
    let name = chars_of(file_name);
    let t = chars_of(title);
    let a = chars_of(artist);
    let sep = vec![' ', '-', ' '];
    assert(sep@ =~= separator());
    let n = name.len();
    if n < 3 {
        assert forall|i: int| !is_last_separator(file_name@, i) by {}
        return false;
    }
    let mut i: usize = n - 3;
    loop
        invariant
            n == name@.len(),
            n >= 3,
            i <= n - 3,
            name@ == file_name@,
            t@ == title@,
            a@ == artist@,
            sep@ == separator(),
            forall|j: int| i < j ==> !occurs_at(name@, separator(), j),
        decreases i,
    {
        if matches_at(&name, 0, n, &sep, i) {
            assert(name@.subrange(0, n as int) =~= name@);
            assert(is_last_separator(file_name@, i as int));
            let title_part = occurs_in(&name, i + 3, n, &t);
            let artist_part = occurs_in(&name, 0, i, &a);
            proof {
                assert forall|j: int| is_last_separator(file_name@, j) implies j == i by {}
                if !title_part && !artist_part {
                    assert(is_last_separator(file_name@, i as int) && !occurs(
                        file_name@.subrange(i + 3, file_name@.len() as int),
                        title@,
                    ) && !occurs(file_name@.subrange(0, i as int), artist@));
                }
            }
            return !title_part && !artist_part;
        }
        assert(name@.subrange(0, n as int) =~= name@);
        if i == 0 {
            assert forall|j: int| !is_last_separator(file_name@, j) by {}
            return false;
        }
        i -= 1;
    }
}

} // verus!
