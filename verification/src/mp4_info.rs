//! What is printed about an MP4 file.

use vstd::prelude::*;

use crate::text::{append_chars, from_chars, to_chars};
use crate::vast::text_views;

verus! {

/// Names with a comma after each.
pub open spec fn comma_list(names: Seq<Seq<char>>) -> Seq<char>
    decreases names.len(),
{
    if names.len() == 0 {
        seq![]
    } else {
        comma_list(names.drop_last()) + names.last() + ","@
    }
}

/// The brands that a file is compatible with, as one text.
pub fn list_brands(brands: &Vec<String>) -> (r: String)
    ensures
        r@ == comma_list(text_views(brands@)),
{
    let ghost views = text_views(brands@);
    let mut out: Vec<char> = Vec::new();
    assert(views.take(0) == Seq::<Seq<char>>::empty());
    for i in 0..brands.len()
        invariant
            views == text_views(brands@),
            out@ == comma_list(views.take(i as int)),
    {
        assert(views.take(i + 1).drop_last() == views.take(i as int));
        assert(views.take(i + 1).last() == brands@[i as int]@);
        append_chars(&mut out, &to_chars(brands[i].as_str()));
        append_chars(&mut out, &to_chars(","));
    }
    assert(views.take(views.len() as int) == views);
    from_chars(&out)
}

} // verus!
