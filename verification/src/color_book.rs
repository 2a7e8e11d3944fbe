//! Color-book colors are stored under one name, `BOOK$COLOR`: the color
//! book's name, a `$`, and the color's name within the book.
use vstd::prelude::*;

use crate::seqs::{first_index, is_first, lemma_first_index_facts, lemma_first_index_is};
use crate::text::{chars_of, owned, push_char, push_text};

verus! {

/// The character is the separator `$`.
pub open spec fn is_dollar() -> spec_fn(char) -> bool {
    |c: char| c == '$'
}

/// A text, or nothing when it is empty.
pub open spec fn non_empty(s: Seq<char>) -> Option<Seq<char>> {
    if s.len() == 0 {
        None
    } else {
        Some(s)
    }
}

/// The text of an optional string.
pub open spec fn opt_text(o: Option<String>) -> Option<Seq<char>> {
    match o {
        Some(s) => Some(s@),
        None => None,
    }
}

/// The text of an optional string slice.
pub open spec fn opt_str(o: Option<&str>) -> Option<Seq<char>> {
    match o {
        Some(s) => Some(s@),
        None => None,
    }
}

/// A name split at its first `$` into book and color name; without a `$`
/// the whole name is the color name. Empty parts are absent.
pub open spec fn split_name(v: Seq<char>) -> (Option<Seq<char>>, Option<Seq<char>>) {
    let k = first_index(v, is_dollar());
    if k >= 0 {
        (non_empty(v.take(k)), non_empty(v.skip(k + 1)))
    } else {
        (None, non_empty(v))
    }
}

/// Present and not empty.
pub open spec fn given(o: Option<Seq<char>>) -> Option<Seq<char>> {
    match o {
        Some(s) => non_empty(s),
        None => None,
    }
}

/// The stored name of a book and color name (empty names count as absent):
/// `BOOK$COLOR`, `BOOK$`, `COLOR`, or nothing.
pub open spec fn joined_name(book: Option<Seq<char>>, color: Option<Seq<char>>) -> Option<
    Seq<char>,
> {
    match (given(book), given(color)) {
        (Some(b), Some(c)) => Some(b + seq!['$'] + c),
        (Some(b), None) => Some(b.push('$')),
        (None, Some(c)) => Some(c),
        (None, None) => None,
    }
}

/// The text as an owned string, or nothing when it is empty.
fn optional(value: &str) -> (r: Option<String>)
    ensures
        opt_text(r) == non_empty(value@),
{
    if crate::text::is_empty_text(value) {
        None
    } else {
        Some(owned(value))
    }
}

/// The characters `cs[from..to]` as a string.
fn text_of(cs: &Vec<char>, from: usize, to: usize) -> (r: String)
    requires
        from <= to <= cs@.len(),
    ensures
        r@ == cs@.subrange(from as int, to as int),
{
    let mut out = String::new();
    let mut i: usize = from;
    while i < to
        invariant
            from <= i <= to <= cs@.len(),
            out@ == cs@.subrange(from as int, i as int),
        decreases to - i,
    {
        push_char(&mut out, cs[i]);
        assert(out@ =~= cs@.subrange(from as int, i + 1));
        i = i + 1;
    }
    out
}

/// Split a stored color-book name into its book name and color name.
pub fn split_color_book_name(value: &str) -> (r: (Option<String>, Option<String>))
    ensures
        (opt_text(r.0), opt_text(r.1)) == split_name(value@),
{
    let cs = chars_of(value);
    let mut i: usize = 0;
    while i < cs.len()
        invariant
            cs@ == value@,
            i <= cs@.len(),
            forall|j: int| 0 <= j < i ==> !(#[trigger] is_dollar()(cs@[j])),
        decreases cs@.len() - i,
    {
        if cs[i] == '$' {
            proof {
                lemma_first_index_is(value@, is_dollar(), i as int);
                assert(value@.take(i as int) =~= cs@.subrange(0, i as int));
                assert(value@.skip(i + 1) =~= cs@.subrange(i + 1, cs@.len() as int));
            }
            let book = text_of(&cs, 0, i);
            let color = text_of(&cs, i + 1, cs.len());
            return (optional(book.as_str()), optional(color.as_str()));
        }
        i = i + 1;
    }
    proof {
        lemma_first_index_facts(value@, is_dollar());
        if first_index(value@, is_dollar()) >= 0 {
            let k = first_index(value@, is_dollar());
            assert(is_dollar()(value@[k]));
        }
    }
    (None, optional(value))
}

/// A present, non-empty text.
fn given_text<'a>(o: Option<&'a str>) -> (r: Option<&'a str>)
    ensures
        opt_str(r) == given(opt_str(o)),
{
    match o {
        Some(s) => if crate::text::is_empty_text(s) {
            None
        } else {
            Some(s)
        },
        None => None,
    }
}

/// The stored name of a book and color name.
pub fn join_color_book_name(book_name: Option<&str>, color_name: Option<&str>) -> (r: Option<
    String,
>)
    ensures
        opt_text(r) == joined_name(opt_str(book_name), opt_str(color_name)),
{
    let book_name = given_text(book_name);
    let color_name = given_text(color_name);
    match (book_name, color_name) {
        (Some(book_name), Some(color_name)) => {
            let mut out = owned(book_name);
            push_char(&mut out, '$');
            push_text(&mut out, color_name);
            Some(out)
        },
        (Some(book_name), None) => {
            let mut out = owned(book_name);
            push_char(&mut out, '$');
            Some(out)
        },
        (None, Some(color_name)) => Some(owned(color_name)),
        (None, None) => None,
    }
}

/// Splitting a joined name gives back the book and color names (empty ones
/// as absent), as long as the book name has no `$` and, without a book
/// name, neither has the color name.
pub proof fn lemma_split_joined(book: Option<Seq<char>>, color: Option<Seq<char>>)
    requires
        joined_name(book, color) is Some,
        given(book) matches Some(b) ==> !b.contains('$'),
        given(book) is None ==> (given(color) matches Some(c) ==> !c.contains('$')),
    ensures
        split_name(joined_name(book, color)->0) == (given(book), given(color)),
{
    let v = joined_name(book, color)->0;
    match given(book) {
        Some(b) => {
            let k = b.len() as int;
            assert(v[k] == '$');
            assert forall|j: int| 0 <= j < k implies !(#[trigger] is_dollar()(v[j])) by {
                assert(v[j] == b[j]);
            }
            lemma_first_index_is(v, is_dollar(), k);
            assert(v.take(k) =~= b);
            match given(color) {
                Some(c) => {
                    assert(v.skip(k + 1) =~= c);
                },
                None => {
                    assert(v.skip(k + 1) =~= Seq::<char>::empty());
                },
            }
        },
        None => {
            let c = given(color)->0;
            assert(v == c);
            assert forall|j: int| 0 <= j < v.len() implies !(#[trigger] is_dollar()(v[j])) by {
                if v[j] == '$' {
                    assert(c.contains('$'));
                }
            }
            crate::seqs::lemma_first_index_none(v, is_dollar());
        },
    }
}

/// Joining the parts of a split name gives back the name, for a non-empty
/// name whose text before its first `$` (if any) is not empty.
pub proof fn lemma_join_split(v: Seq<char>)
    requires
        v.len() > 0,
        first_index(v, is_dollar()) != 0,
    ensures
        joined_name(split_name(v).0, split_name(v).1) == Some(v),
{
    lemma_first_index_facts(v, is_dollar());
    let k = first_index(v, is_dollar());
    if k >= 0 {
        assert(v.take(k).len() > 0);
        if v.skip(k + 1).len() > 0 {
            assert(v.take(k) + seq!['$'] + v.skip(k + 1) =~= v);
        } else {
            assert(v.take(k).push('$') =~= v);
        }
    }
}

} // verus!
