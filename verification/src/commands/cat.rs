//! `cat`: which inputs to copy to standard output, in order.
use vstd::prelude::*;
use crate::text::same_text;

verus! {

/// One input of `cat`.
pub enum CatSource {
    /// Standard input (no arguments, or the argument `-`).
    Stdin,
    /// The named file.
    File(String),
}

/// `CatSource` with the file name as characters.
pub enum CatSourceView {
    Stdin,
    File(Seq<char>),
}

impl View for CatSource {
    type V = CatSourceView;

    open spec fn view(&self) -> CatSourceView {
        match self {
            CatSource::Stdin => CatSourceView::Stdin,
            CatSource::File(name) => CatSourceView::File(name@),
        }
    }
}

/// The input that one argument stands for.
pub open spec fn source_of(arg: Seq<char>) -> CatSourceView {
    if arg == "-"@ {
        CatSourceView::Stdin
    } else {
        CatSourceView::File(arg)
    }
}

/// The inputs of `cat`: standard input alone without arguments, otherwise
/// one input per argument, `-` standing for standard input.
pub fn cat_sources(args: &[&str]) -> (r: Vec<CatSource>)
    ensures
        args@.len() == 0 ==> r@.len() == 1 && r@[0]@ == CatSourceView::Stdin,
        args@.len() > 0 ==> r@.len() == args@.len() && forall|k: int|
            0 <= k < args@.len() ==> #[trigger] r@[k]@ == source_of(args@[k]@),
{
    let mut r: Vec<CatSource> = Vec::new();
    if args.len() == 0 {
        r.push(CatSource::Stdin);
        return r;
    }
    let mut i: usize = 0;
    while i < args.len()
        invariant
            i <= args@.len(),
            r@.len() == i,
            forall|k: int| 0 <= k < i ==> #[trigger] r@[k]@ == source_of(args@[k]@),
        decreases args@.len() - i,
    {
        if same_text(args[i], "-") {
            r.push(CatSource::Stdin);
        } else {
            r.push(CatSource::File(String::from_str(args[i])));
        }
        i = i + 1;
    }
    r
}

} // verus!
