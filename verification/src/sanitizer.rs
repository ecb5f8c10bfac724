//! Name synthesis for per-operation input-parameter type aliases: a URL
//! template reduced to an identifier, with an optional method prefix and a
//! fixed suffix.

use vstd::prelude::*;
use vstd::string::*;

use crate::text::{
    join_with, join_with_spec, remove_char, remove_char_spec, replace_char, replace_char_spec,
    split_char, split_char_spec,
};

verus! {

/// The identifier derived from a URL template: path separators and variable
/// braces removed, dashes replaced by underscores, an optional prefix in
/// front and the fixed parameters suffix behind.
pub open spec fn input_type_name_spec(path: Seq<char>, prefix: Option<Seq<char>>) -> Seq<char> {
    let cleaned = replace_char_spec(
        remove_char_spec(remove_char_spec(remove_char_spec(path, '/'), '{'), '}'),
        '-',
        '_',
    );
    (match prefix {
        Option::Some(p) => p,
        Option::None => Seq::<char>::empty(),
    }) + cleaned + "_Params"@
}

pub fn create_input_type_name_from_path(path: &String, prefix: Option<&String>) -> (r: String)
    ensures
        prefix is Some ==> r@ == input_type_name_spec(path@, Some((prefix->0)@)),
        prefix is None ==> r@ == input_type_name_spec(path@, None),
{
    let no_slash = remove_char(path.as_str(), '/');
    let no_open = remove_char(no_slash.as_str(), '{');
    let no_close = remove_char(no_open.as_str(), '}');
    let cleaned = replace_char(no_close.as_str(), '-', '_');
    let mut result = String::new();
    match prefix {
        Option::Some(p) => result.append(p.as_str()),
        Option::None => {},
    }
    result.append(cleaned.as_str());
    result.append("_Params");
    result
}

/// True when the segment names a TypeScript source file.
pub open spec fn ends_with_ts_spec(seg: Seq<char>) -> bool {
    seg.len() >= 3 && seg[seg.len() - 3] == '.' && seg[seg.len() - 2] == 't' && seg[seg.len()
        - 1] == 's'
}

/// The segments that name directories: every segment of the split path that
/// does not end in the TypeScript file suffix, in order.
pub open spec fn dir_segments_spec(segs: Seq<Seq<char>>) -> Seq<Seq<char>>
    decreases segs.len(),
{
    if segs.len() == 0 {
        Seq::<Seq<char>>::empty()
    } else if ends_with_ts_spec(segs.last()) {
        dir_segments_spec(segs.drop_last())
    } else {
        dir_segments_spec(segs.drop_last()).push(segs.last())
    }
}

/// The directory part of a destination file path: its separator-split
/// segments without the file segment, joined with separators again.
pub open spec fn folder_path_spec(path: Seq<char>) -> Seq<char> {
    join_with_spec(dir_segments_spec(split_char_spec(path, '/')), "/"@)
}

pub fn create_folder_path(path: &String) -> (r: String)
    ensures
        r@ == folder_path_spec(path@),
{
    let segs = split_char(path.as_str(), '/');
    let mut kept: Vec<String> = Vec::new();
    let mut i: usize = 0;
    proof {
        assert(segs.deep_view().take(0) =~= Seq::<Seq<char>>::empty());
        assert(kept.deep_view() =~= dir_segments_spec(segs.deep_view().take(0)));
    }
    while i < segs.len()
        invariant
            i <= segs@.len(),
            segs@.len() == segs.deep_view().len(),
            forall|k: int| 0 <= k < segs@.len() ==> (#[trigger] segs@[k])@ == segs.deep_view()[k],
            kept.deep_view() == dir_segments_spec(segs.deep_view().take(i as int)),
        decreases segs@.len() - i,
    {
        proof {
            assert(segs.deep_view().take(i + 1).drop_last() =~= segs.deep_view().take(i as int));
            assert(segs.deep_view().take(i + 1).last() == segs.deep_view()[i as int]);
        }
        let seg = &segs[i];
        let n = seg.as_str().unicode_len();
        let is_ts = n >= 3 && seg.as_str().get_char(n - 3) == '.' && seg.as_str().get_char(n - 2)
            == 't' && seg.as_str().get_char(n - 1) == 's';
        if !is_ts {
            let ghost prev = kept.deep_view();
            let copy = seg.clone();
            let ghost cv = copy@;
            kept.push(copy);
            proof {
                assert(kept.deep_view() =~~= prev.push(cv));
            }
        }
        i = i + 1;
    }
    proof {
        assert(segs.deep_view().take(segs.deep_view().len() as int) =~= segs.deep_view());
    }
    join_with(&kept, "/")
}

} // verus!
