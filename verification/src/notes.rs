//! Piano-roll note edits around the note generators: which chord a name
//! asks for, and how generated notes take the place of the selection.

use vstd::prelude::*;
use crate::text::str_eq;

verus! {

/// The chord a chord stamp builds under each note.
#[derive(Debug, Clone, Copy, PartialEq, Eq, Structural)]
pub enum ChordQuality {
    Major,
    Minor,
    Diminished,
    Augmented,
    Dominant7,
    Major7,
    Minor7,
}

/// The chord a UI name stands for, or `None` for an unknown name.
pub open spec fn chord_of_name(name: Seq<char>) -> Option<ChordQuality> {
    if name == "major"@ {
        Some(ChordQuality::Major)
    } else if name == "minor"@ {
        Some(ChordQuality::Minor)
    } else if name == "dim"@ || name == "diminished"@ {
        Some(ChordQuality::Diminished)
    } else if name == "aug"@ || name == "augmented"@ {
        Some(ChordQuality::Augmented)
    } else if name == "dom7"@ || name == "dominant7"@ {
        Some(ChordQuality::Dominant7)
    } else if name == "maj7"@ || name == "major7"@ {
        Some(ChordQuality::Major7)
    } else if name == "min7"@ || name == "minor7"@ {
        Some(ChordQuality::Minor7)
    } else {
        None
    }
}

/// Parses a chord-quality name; an unknown one is refused with
/// `Unknown chord quality: <name>`.
pub fn parse_chord_quality(name: &str) -> (r: Result<ChordQuality, String>)
    ensures
        match chord_of_name(name@) {
            Some(q) => r == Ok::<ChordQuality, String>(q),
            None => r matches Err(m) && m@ == "Unknown chord quality: "@ + name@,
        },
{
    if str_eq(name, "major") {
        Ok(ChordQuality::Major)
    } else if str_eq(name, "minor") {
        Ok(ChordQuality::Minor)
    } else if str_eq(name, "dim") || str_eq(name, "diminished") {
        Ok(ChordQuality::Diminished)
    } else if str_eq(name, "aug") || str_eq(name, "augmented") {
        Ok(ChordQuality::Augmented)
    } else if str_eq(name, "dom7") || str_eq(name, "dominant7") {
        Ok(ChordQuality::Dominant7)
    } else if str_eq(name, "maj7") || str_eq(name, "major7") {
        Ok(ChordQuality::Major7)
    } else if str_eq(name, "min7") || str_eq(name, "minor7") {
        Ok(ChordQuality::Minor7)
    } else {
        let mut m = String::from_str("Unknown chord quality: ");
        m.append(name);
        Err(m)
    }
}

/// Whether a sequence of indices is in ascending order.
pub open spec fn ascending(s: Seq<usize>) -> bool {
    forall|i: int, j: int| 0 <= i < j < s.len() ==> s[i] <= s[j]
}

/// Indices in ascending order, the same indices as given.
pub fn sort_indices(v: Vec<usize>) -> (out: Vec<usize>)
    ensures
        ascending(out@),
        out@.to_multiset() == v@.to_multiset(),
{
    let mut out: Vec<usize> = Vec::new();
    let mut i: usize = 0;
    proof {
        assert(v@.take(0) =~= Seq::<usize>::empty());
        assert(out@ =~= Seq::<usize>::empty());
    }
    while i < v.len()
        invariant
            0 <= i <= v@.len(),
            ascending(out@),
            out@.to_multiset() == v@.take(i as int).to_multiset(),
        decreases v@.len() - i,
    {
        let x = v[i];
        let mut j: usize = 0;
        while j < out.len() && out[j] <= x
            invariant
                0 <= j <= out@.len(),
                forall|k: int| 0 <= k < j ==> out@[k] <= x,
            decreases out@.len() - j,
        {
            j = j + 1;
        }
        let ghost before = out@;
        out.insert(j, x);
        proof {
            assert forall|a: int, b: int| 0 <= a < b < out@.len() implies out@[a] <= out@[b] by {
                if b < j as int {
                    assert(out@[a] == before[a] && out@[b] == before[b]);
                } else if b == j as int {
                    assert(out@[a] == before[a]);
                } else if a == j as int {
                    assert(out@[b] == before[b - 1]);
                    assert(before[j as int] > x);
                    if b - 1 > j as int {
                        assert(before[j as int] <= before[b - 1]);
                    }
                } else if a < j as int {
                    assert(out@[a] == before[a] && out@[b] == before[b - 1]);
                } else {
                    assert(out@[a] == before[a - 1] && out@[b] == before[b - 1]);
                }
            }
            vstd::seq_lib::to_multiset_insert(before, j as int, x);
            assert(v@.take(i as int + 1) =~= v@.take(i as int).push(x));
            vstd::seq_lib::to_multiset_build(v@.take(i as int), x);
        }
        i = i + 1;
    }
    assert(v@.take(i as int) =~= v@);
    out
}

/// The notes left after removing, from the highest index down, each listed
/// index that is still in range (`sorted` ascending).
pub open spec fn removed_from_top<N>(notes: Seq<N>, sorted: Seq<usize>) -> Seq<N>
    decreases sorted.len(),
{
    if sorted.len() == 0 {
        notes
    } else {
        let i = sorted.last();
        let after = if i < notes.len() { notes.remove(i as int) } else { notes };
        removed_from_top(after, sorted.drop_last())
    }
}

/// Replaces the selected notes with generated ones: the selected indices
/// are removed from the highest down (an index past the end is skipped),
/// then the generated notes are appended. Returns how many were generated.
pub fn replace_selected<N>(notes: &mut Vec<N>, indices: Vec<usize>, generated: Vec<N>) -> (count: usize)
    ensures
        count == generated@.len(),
        exists|sorted: Seq<usize>|
            #![trigger removed_from_top(old(notes)@, sorted)]
            ascending(sorted) && sorted.to_multiset() == indices@.to_multiset() && final(notes)@ == removed_from_top(
                old(notes)@,
                sorted,
            ) + generated@,
{
    let sorted = sort_indices(indices);
    let ghost all = sorted@;
    let mut k: usize = sorted.len();
    assert(all.take(k as int) =~= all);
    while k > 0
        invariant
            0 <= k <= all.len(),
            all == sorted@,
            removed_from_top(old(notes)@, all) == removed_from_top(notes@, all.take(k as int)),
        decreases k,
    {
        let i = sorted[k - 1];
        proof {
            assert(all.take(k as int).drop_last() =~= all.take(k as int - 1));
            assert(all.take(k as int).last() == i);
        }
        if i < notes.len() {
            notes.remove(i);
        }
        k = k - 1;
    }
    assert(all.take(0) =~= Seq::<usize>::empty());
    let count = generated.len();
    let mut gen = generated;
    let ghost kept = notes@;
    let ghost g = gen@;
    notes.append(&mut gen);
    assert(notes@ =~= kept + g);
    count
}

} // verus!
