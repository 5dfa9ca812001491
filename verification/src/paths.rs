//! Textual composition of slash-separated paths.

use vstd::prelude::*;
use vstd::string::StrSliceExecFns;
use vstd::string::StringExecFns;

verus! {

/// `child` under `base`: an absolute child replaces the base, and a separator is
/// put between the two where the base does not end in one.
pub open spec fn joined(base: Seq<char>, child: Seq<char>) -> Seq<char> {
    if child.len() > 0 && child[0] == '/' {
        child
    } else if base.len() == 0 || base.last() == '/' {
        base + child
    } else {
        base + seq!['/'] + child
    }
}

pub fn join(base: &str, child: &str) -> (r: String)
    ensures
        r@ == joined(base@, child@),
{
    if child.unicode_len() > 0 && child.get_char(0) == '/' {
        return child.to_owned();
    }
    let mut r = base.to_owned();
    let n: usize = base.unicode_len();
    if n > 0 && base.get_char(n - 1) != '/' {
        proof {
            reveal_strlit("/");
        }
        assert("/"@ =~= seq!['/']);
        r.append("/");
    }
    r.append(child);
    r
}

/// A joined path ends with the child. An absolute child stands alone; any other stands
/// behind the base, with one separator between the two where the base is not empty and
/// does not end in one.
pub proof fn a_child_stands_behind_its_base(base: Seq<char>, child: Seq<char>)
    ensures
        child.len() > 0 && child[0] == '/' ==> joined(base, child) == child,
        child.len() == 0 || child[0] != '/' ==> {
            let j = joined(base, child);
            let separate = base.len() > 0 && base.last() != '/';
            &&& j.len() == base.len() + child.len() + if separate {
                1int
            } else {
                0
            }
            &&& j.take(base.len() as int) == base
            &&& j.skip(j.len() - child.len()) == child
            &&& separate ==> j[base.len() as int] == '/'
        },
{
    if child.len() == 0 || child[0] != '/' {
        let j = joined(base, child);
        assert(j.take(base.len() as int) =~= base);
        assert(j.skip(j.len() - child.len()) =~= child);
    }
}

} // verus!
