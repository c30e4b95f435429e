//! Which GStreamer plugins stay visible once the PipeWire plugin is hidden.
use vstd::prelude::*;
use crate::model::ostr;
use crate::text::{chars_of, str_eq, string_of_range};

verus! {

/// The position of the last '.' among the first `i` characters.
pub open spec fn last_dot_before(name: Seq<char>, i: int) -> Option<int>
    decreases i,
{
    if i <= 0 || i > name.len() {
        None
    } else if name[i - 1] == '.' {
        Some(i - 1)
    } else {
        last_dot_before(name, i - 1)
    }
}

/// `Path::extension` of a file name: what follows its last '.', unless that
/// '.' starts the name (or the name is `..`).
pub open spec fn file_extension(name: Seq<char>) -> Option<Seq<char>> {
    if name == ".."@ {
        None
    } else {
        match last_dot_before(name, name.len() as int) {
            Some(d) => if d == 0 {
                None
            } else {
                Some(name.subrange(d + 1, name.len() as int))
            },
            None => None,
        }
    }
}

proof fn lemma_last_dot_in_range(name: Seq<char>, i: int)
    ensures
        match last_dot_before(name, i) {
            Some(d) => 0 <= d < i && name[d] == '.',
            None => true,
        },
    decreases i,
{
    if 0 < i <= name.len() && name[i - 1] != '.' {
        lemma_last_dot_in_range(name, i - 1);
    }
}

pub fn extension_of(name: &str) -> (r: Option<String>)
    ensures
        ostr(r) == file_extension(name@),
{
    if str_eq(name, "..") {
        return None;
    }
    let v = chars_of(name);
    let mut i: usize = v.len();
    proof {
        lemma_last_dot_in_range(v@, v@.len() as int);
    }
    while i > 0
        invariant
            i <= v@.len(),
            v@ == name@,
            name@ != ".."@,
            last_dot_before(v@, v@.len() as int) == last_dot_before(v@, i as int),
        decreases i,
    {
        if v[i - 1] == '.' {
            let d = i - 1;
            if d == 0 {
                return None;
            }
            let e = string_of_range(&v, d + 1, v.len());
            assert(last_dot_before(v@, i as int) == Some(d as int));
            assert(name@ != ".."@);
            return Some(e);
        }
        i = i - 1;
    }
    None
}

/// A plugin file is linked into the filtered directory when it is a shared
/// object other than the PipeWire plugin.
pub open spec fn links_plugin(name: Seq<char>) -> bool {
    file_extension(name) == Some("so"@) && name != "libgstpipewire.so"@
}

pub fn keeps_plugin(file_name: &str) -> (r: bool)
    ensures
        r == links_plugin(file_name@),
{
    let so = match extension_of(file_name) {
        Some(e) => str_eq(e.as_str(), "so"),
        None => false,
    };
    so && !str_eq(file_name, "libgstpipewire.so")
}

} // verus!
