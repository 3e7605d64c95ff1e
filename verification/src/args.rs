//! Command-line arguments: smartlog options before `--`, command options after.
use vstd::prelude::*;
use crate::lines_view;

verus! {

/// The argument that separates smartlog options from command options.
pub open spec fn separator() -> Seq<char> {
    seq!['-', '-']
}

/// Index of the first `--` among `args[i..]`, if any.
pub open spec fn separator_from(args: Seq<Seq<char>>, i: int) -> Option<int>
    decreases args.len() - i,
{
    if i < 0 || i >= args.len() {
        None
    } else if args[i] == separator() {
        Some(i)
    } else {
        separator_from(args, i + 1)
    }
}

/// Index of the first `--` in `args`, if any.
pub open spec fn separator_index(args: Seq<Seq<char>>) -> Option<int> {
    separator_from(args, 0)
}

/// Clones of `args[from..to]`.
fn clone_range(args: &[String], from: usize, to: usize) -> (r: Vec<String>)
    requires
        from <= to <= args@.len(),
    ensures
        r@ == args@.subrange(from as int, to as int),
{
    let mut out: Vec<String> = Vec::new();
    let mut i = from;
    while i < to
        invariant
            from <= i <= to <= args@.len(),
            out@ == args@.subrange(from as int, i as int),
        decreases to - i,
    {
        out.push(args[i].clone());
        assert(out@ =~= args@.subrange(from as int, i + 1));
        i = i + 1;
    }
    out
}

/// Splits `args` at the first `--`: the arguments before it and those after
/// it; with no `--`, all of `args` and nothing.
pub fn split_argv(args: &[String]) -> (r: (Vec<String>, Vec<String>))
    ensures
        match separator_index(lines_view(args@)) {
            Some(i) => r.0@ == args@.take(i) && r.1@ == args@.skip(i + 1),
            None => r.0@ == args@ && r.1@.len() == 0,
        },
{
    let ghost views = lines_view(args@);
    let sep = String::from_str("--");
    proof {
        reveal_strlit("--");
        assert(sep@ =~= separator());
    }
    let mut i: usize = 0;
    while i < args.len()
        invariant
            views == lines_view(args@),
            i <= args@.len(),
            sep@ == separator(),
            separator_index(views) == separator_from(views, i as int),
        decreases args@.len() - i,
    {
        if args[i] == sep {
            let before = clone_range(args, 0, i);
            let after = clone_range(args, i + 1, args.len());
            assert(before@ =~= args@.take(i as int));
            assert(after@ =~= args@.skip(i + 1));
            return (before, after);
        }
        i = i + 1;
    }
    let all = clone_range(args, 0, args.len());
    assert(all@ =~= args@);
    (all, Vec::new())
}

} // verus!
