//! File names of rendered frames and presets, and listing presets.

use vstd::prelude::*;
use crate::export::{lemma_sampled_indices_shape, sampled_frame_indices, sampled_indices};
use crate::text::{
    digits_value, lemma_zero_padded_value, lemma_lex_total, lemma_lex_transitive, lex_le, push_char, push_zero_padded, str_le, zero_padded,
};

verus! {

broadcast use vstd::seq_lib::to_multiset_insert, vstd::seq_lib::to_multiset_build;

/// `frame_NNNNNN.png`: the number written in decimal, zero-padded to six digits.
pub open spec fn frame_file_name_spec(frame_number: u32) -> Seq<char> {
    "frame_"@ + zero_padded(frame_number as nat, 6) + ".png"@
}

/// The file name of a numbered frame image, such as `frame_000042.png`.
pub fn frame_file_name(frame_number: u32) -> (name: String)
    ensures
        name@ == frame_file_name_spec(frame_number),
{
    let mut s = String::from_str("frame_");
    push_zero_padded(&mut s, frame_number as u64, 6);
    s.append(".png");
    s
}

/// Different frame numbers get different file names, so no frame overwrites another.
pub proof fn lemma_frame_file_names_distinct(n: u32, m: u32)
    requires
        n != m,
    ensures
        frame_file_name_spec(n) != frame_file_name_spec(m),
{
    let zn = zero_padded(n as nat, 6);
    let zm = zero_padded(m as nat, 6);
    lemma_zero_padded_value(n as nat, 6);
    lemma_zero_padded_value(m as nat, 6);
    reveal_strlit("frame_");
    reveal_strlit(".png");
    if frame_file_name_spec(n) == frame_file_name_spec(m) {
        let a = frame_file_name_spec(n);
        assert(a.len() == 10 + zn.len());
        assert(frame_file_name_spec(m).len() == 10 + zm.len());
        assert(zn.len() == zm.len());
        assert(a.subrange(6, 6 + zn.len() as int) =~= zn);
        assert(frame_file_name_spec(m).subrange(6, 6 + zm.len() as int) =~= zm);
        assert(digits_value(zn) == digits_value(zm));
    }
}

/// The files a render of `total_frames` frames writes: frame `i + 1` for each
/// `i` below the total, in order.
pub open spec fn rendered_file_names(total_frames: u32) -> Seq<Seq<char>> {
    Seq::new(total_frames as nat, |i: int| frame_file_name_spec((i + 1) as u32))
}

/// The files a contact sheet of every `step`-th frame reads: the file of each
/// sampled frame number, in order.
pub open spec fn sheet_file_names(total_frames: u32, step: u32) -> Seq<Seq<char>> {
    sampled_indices(total_frames, step).map_values(|n: u32| frame_file_name_spec(n))
}

/// The names of the frame files a contact sheet of every `step`-th frame (and
/// the last) reads.
pub fn contact_sheet_file_names(total_frames: u32, step: u32) -> (names: Vec<String>)
    ensures
        names@.len() == sheet_file_names(total_frames, step).len(),
        forall|k: int| 0 <= k < names@.len() ==> #[trigger] names@[k]@ == sheet_file_names(total_frames, step)[k],
{
    let indices = sampled_frame_indices(total_frames, step);
    let mut names: Vec<String> = Vec::new();
    let mut k: usize = 0;
    while k < indices.len()
        invariant
            indices@ == sampled_indices(total_frames, step),
            k <= indices@.len(),
            names@.len() == k,
            forall|j: int| 0 <= j < k ==> #[trigger] names@[j]@ == sheet_file_names(total_frames, step)[j],
        decreases indices@.len() - k,
    {
        names.push(frame_file_name(indices[k]));
        k = k + 1;
    }
    names
}

/// A contact sheet reads only files that the render wrote, each a different
/// file: the file of sampled frame `n` is rendered file `n - 1`.
pub proof fn lemma_sheet_reads_rendered_files(total_frames: u32, step: u32)
    ensures
        forall|k: int|
            0 <= k < sheet_file_names(total_frames, step).len() ==> {
                let n = sampled_indices(total_frames, step)[k];
                &&& 1 <= n <= total_frames
                &&& #[trigger] sheet_file_names(total_frames, step)[k] == rendered_file_names(total_frames)[n - 1]
            },
        forall|k: int, j: int|
            0 <= k < j < sheet_file_names(total_frames, step).len() ==> #[trigger] sheet_file_names(total_frames, step)[k]
                != #[trigger] sheet_file_names(total_frames, step)[j],
{
    if total_frames >= 1 {
        lemma_sampled_indices_shape(total_frames, step);
    }
    let idx = sampled_indices(total_frames, step);
    assert forall|k: int| 0 <= k < sheet_file_names(total_frames, step).len() implies {
        let n = idx[k];
        &&& 1 <= n <= total_frames
        &&& #[trigger] sheet_file_names(total_frames, step)[k] == rendered_file_names(total_frames)[n - 1]
    } by {
        assert(1 <= idx[k] <= total_frames);
        assert(((idx[k] - 1) + 1) as u32 == idx[k]);
    }
    assert forall|k: int, j: int| 0 <= k < j < sheet_file_names(total_frames, step).len() implies #[trigger] sheet_file_names(
        total_frames,
        step,
    )[k] != #[trigger] sheet_file_names(total_frames, step)[j] by {
        assert(idx[k] < idx[j]);
        lemma_frame_file_names_distinct(idx[k], idx[j]);
    }
}

/// The file name under which a preset is stored: its name followed by `.toml`.
pub fn preset_file_name(name: &str) -> (file: String)
    ensures
        file@ == name@ + ".toml"@,
{
    let mut s = String::from_str(name);
    s.append(".toml");
    s
}

/// Index of the last `.` in `s`, or -1 when there is none.
pub open spec fn last_dot(s: Seq<char>) -> int
    decreases s.len(),
{
    if s.len() == 0 {
        -1
    } else if s.last() == '.' {
        s.len() - 1
    } else {
        last_dot(s.drop_last())
    }
}

/// The preset name a directory entry stands for: the part before the last
/// dot when the name has the extension `toml` (a name whose only dot is its
/// first character has no extension).
pub open spec fn toml_stem(file_name: Seq<char>) -> Option<Seq<char>> {
    let d = last_dot(file_name);
    if d > 0 && file_name.skip(d + 1) == "toml"@ {
        Some(file_name.take(d))
    } else {
        None
    }
}

/// The preset names among `files`, in the order of `files`.
pub open spec fn toml_stems(files: Seq<Seq<char>>) -> Seq<Seq<char>>
    decreases files.len(),
{
    if files.len() == 0 {
        Seq::empty()
    } else {
        match toml_stem(files.last()) {
            Some(stem) => toml_stems(files.drop_last()).push(stem),
            None => toml_stems(files.drop_last()),
        }
    }
}

/// Every entry comes no later than every entry after it.
pub open spec fn is_sorted(s: Seq<Seq<char>>) -> bool {
    forall|i: int, j: int| 0 <= i < j < s.len() ==> lex_le(#[trigger] s[i], #[trigger] s[j])
}

pub open spec fn string_views(v: Seq<String>) -> Seq<Seq<char>> {
    v.map_values(|s: String| s@)
}

proof fn lemma_last_dot_range(s: Seq<char>)
    ensures
        -1 <= last_dot(s) < s.len(),
        last_dot(s) >= 0 ==> s[last_dot(s)] == '.',
        forall|i: int| last_dot(s) < i < s.len() ==> s[i] != '.',
    decreases s.len(),
{
    if s.len() > 0 && s.last() != '.' {
        lemma_last_dot_range(s.drop_last());
        assert forall|i: int| last_dot(s) < i < s.len() implies s[i] != '.' by {
            if i < s.len() - 1 {
                assert(s[i] == s.drop_last()[i]);
            }
        }
    }
}

/// The preset name for a directory entry, if it has the extension `toml`.
pub fn preset_name_of(file_name: &str) -> (stem: Option<String>)
    ensures
        match stem {
            Some(s) => toml_stem(file_name@) == Some(s@),
            None => toml_stem(file_name@) is None,
        },
{
    let n = file_name.unicode_len();
    let mut i = n;
    assert(file_name@.take(n as int) =~= file_name@);
    while i > 0 && file_name.get_char(i - 1) != '.'
        invariant
            n == file_name@.len(),
            i <= n,
            last_dot(file_name@) == last_dot(file_name@.take(i as int)),
        decreases i,
    {
        proof {
            assert(file_name@.take(i as int).drop_last() =~= file_name@.take(i - 1));
        }
        i = i - 1;
    }
    proof {
        assert(file_name@.take(n as int) =~= file_name@);
        if i > 0 {
            assert(file_name@.take(i as int).last() == '.');
            assert(last_dot(file_name@) == i - 1);
        } else {
            assert(file_name@.take(0) =~= Seq::<char>::empty());
            assert(last_dot(file_name@) == -1);
        }
    }
    if i <= 1 {
        return None;
    }
    let d = i - 1;
    if n - i != 4 {
        proof {
            reveal_strlit("toml");
            assert(file_name@.skip(d + 1).len() != 4);
        }
        return None;
    }
    let t = file_name.get_char(i) == 't' && file_name.get_char(i + 1) == 'o' && file_name.get_char(i + 2) == 'm'
        && file_name.get_char(i + 3) == 'l';
    proof {
        reveal_strlit("toml");
        let ext = file_name@.skip(d + 1);
        assert(ext.len() == 4);
        if t {
            assert(ext =~= "toml"@);
        } else {
            assert(ext != "toml"@) by {
                if ext == "toml"@ {
                    assert(ext[0] == 't' && ext[1] == 'o' && ext[2] == 'm' && ext[3] == 'l');
                }
            }
        }
    }
    if !t {
        return None;
    }
    let stem = file_name.substring_char(0, d);
    Some(String::from_str(stem))
}

/// Inserts `name` into the sorted list after every entry that comes no later.
fn insert_sorted(names: &mut Vec<String>, name: String)
    requires
        is_sorted(string_views(old(names)@)),
    ensures
        is_sorted(string_views(final(names)@)),
        string_views(final(names)@).to_multiset() == string_views(old(names)@).to_multiset().insert(name@),
{
    let ghost before = string_views(names@);
    let n = names.len();
    let mut pos: usize = 0;
    while pos < n && str_le(names[pos].as_str(), name.as_str())
        invariant
            n == names@.len(),
            before == string_views(names@),
            pos <= n,
            forall|k: int| 0 <= k < pos ==> lex_le(#[trigger] before[k], name@),
        decreases n - pos,
    {
        pos = pos + 1;
    }
    proof {
        if pos < n {
            assert(!lex_le(before[pos as int], name@));
            lemma_lex_total(before[pos as int], name@);
        }
    }
    let ghost nv = name@;
    names.insert(pos, name);
    proof {
        let after = string_views(names@);
        assert(after =~= before.insert(pos as int, nv));
        assert forall|i: int, j: int| 0 <= i < j < after.len() implies lex_le(#[trigger] after[i], #[trigger] after[j]) by {
            if j < pos {
                assert(after[i] == before[i] && after[j] == before[j]);
            } else if j == pos {
                assert(after[i] == before[i]);
            } else if i == pos {
                assert(after[j] == before[j - 1]);
                assert(lex_le(nv, before[pos as int]));
                if j - 1 > pos {
                    assert(lex_le(before[pos as int], before[j - 1]));
                    lemma_lex_transitive(nv, before[pos as int], before[j - 1]);
                }
            } else if i < pos {
                assert(after[i] == before[i] && after[j] == before[j - 1]);
            } else {
                assert(after[i] == before[i - 1] && after[j] == before[j - 1]);
            }
        }
    }
}

/// Names of the presets found among directory entries: entries with the
/// extension `toml`, without it, in lexicographic order.
pub fn preset_names(file_names: &Vec<String>) -> (names: Vec<String>)
    ensures
        is_sorted(string_views(names@)),
        string_views(names@).to_multiset() == toml_stems(string_views(file_names@)).to_multiset(),
{
    let ghost files = string_views(file_names@);
    let mut names: Vec<String> = Vec::new();
    let n = file_names.len();
    let mut i: usize = 0;
    assert(string_views(names@) =~= Seq::<Seq<char>>::empty());
    while i < n
        invariant
            n == file_names@.len(),
            files == string_views(file_names@),
            i <= n,
            is_sorted(string_views(names@)),
            string_views(names@).to_multiset() == toml_stems(files.take(i as int)).to_multiset(),
        decreases n - i,
    {
        proof {
            assert(files.take(i + 1).drop_last() =~= files.take(i as int));
            assert(files.take(i + 1).last() == file_names@[i as int]@);
        }
        match preset_name_of(file_names[i].as_str()) {
            Some(stem) => {
                insert_sorted(&mut names, stem);
            },
            None => {},
        }
        i = i + 1;
    }
    assert(files.take(n as int) =~= files);
    names
}

} // verus!
