use vstd::prelude::*;

use crate::category::labels_view;

verus! {

/// Relies on std's `String::push`, documented to append the given `char` to
/// the end of the string.
pub assume_specification[ String::push ](s: &mut String, ch: char)
    ensures
        final(s)@ == old(s)@.push(ch),
;

/// The settings of a run: where the archive is, and which systems to report
/// (all of them when `desired_systems` is `None`).
#[derive(Debug)]
pub struct Config {
    pub archive_root: String,
    pub desired_systems: Option<Vec<String>>,
}

/// Characters that separate labels in a list of labels.
pub open spec fn is_separator(c: char) -> bool {
    c == ',' || c == ' '
}

/// The fields of `s` between separators, in order. Two separators in a row, or
/// one at either end, give an empty field.
pub open spec fn label_fields(s: Seq<char>) -> Seq<Seq<char>>
    decreases s.len(),
{
    if s.len() == 0 {
        seq![Seq::<char>::empty()]
    } else {
        let r = label_fields(s.drop_last());
        if is_separator(s.last()) {
            r.push(Seq::<char>::empty())
        } else {
            r.update(r.len() - 1, r.last().push(s.last()))
        }
    }
}

proof fn lemma_label_fields_nonempty(s: Seq<char>)
    ensures
        label_fields(s).len() >= 1,
    decreases s.len(),
{
    if s.len() > 0 {
        lemma_label_fields_nonempty(s.drop_last());
    }
}

/// Splits a list of labels at each comma and each space.
pub fn split_labels(labels: &str) -> (r: Vec<String>)
    ensures
        r@.map_values(|l: String| l@) == label_fields(labels@),
{
    let mut done: Vec<String> = Vec::new();
    let mut cur = String::new();
    let ghost mut seen: Seq<char> = Seq::empty();
    for c in it: labels.chars()
        invariant
            seen == it.seq().take(it.index() as int),
            done@.map_values(|l: String| l@).push(cur@) == label_fields(seen),
    {
        proof {
            lemma_label_fields_nonempty(seen);
            assert(seen.push(c).drop_last() =~= seen);
        }
        let ghost before = done@.map_values(|l: String| l@);
        if c == ',' || c == ' ' {
            let piece = cur;
            cur = String::new();
            done.push(piece);
            assert(done@.map_values(|l: String| l@) =~= before.push(piece@));
            assert(done@.map_values(|l: String| l@).push(cur@) =~= before.push(piece@).push(
                Seq::<char>::empty(),
            ));
        } else {
            let ghost old_cur = cur@;
            cur.push(c);
            assert(before.push(cur@) =~= before.push(old_cur).update(
                before.len() as int,
                old_cur.push(c),
            ));
        }
        proof {
            seen = seen.push(c);
            assert(seen =~= it.seq().take(it.index() + 1));
        }
    }
    let ghost before = done@.map_values(|l: String| l@);
    done.push(cur);
    assert(done@.map_values(|l: String| l@) =~= before.push(cur@));
    assert(seen =~= labels@);
    done
}

impl Config {
    /// Settings from what the command line and the environment give: the archive
    /// root passed as an argument, or else the one from the environment, and the
    /// list of wanted labels split at commas and spaces. `None` when neither
    /// source names an archive root.
    pub fn generate(
        archive_root: Option<String>,
        env_archive_root: Option<String>,
        desired_systems: Option<String>,
    ) -> (r: Option<Config>)
        ensures
            r is Some <==> (archive_root is Some || env_archive_root is Some),
            r is Some ==> r->0.archive_root@ == (match archive_root {
                Option::Some(a) => a@,
                Option::None => env_archive_root->0@,
            }),
            r is Some ==> labels_view(r->0.desired_systems) == (match desired_systems {
                Option::Some(l) => Option::Some(label_fields(l@)),
                Option::None => Option::None,
            }),
    {
        let root = match archive_root {
            Option::Some(a) => a,
            Option::None => match env_archive_root {
                Option::Some(e) => e,
                Option::None => {
                    return None;
                },
            },
        };
        let desired = match desired_systems {
            Option::Some(l) => Option::Some(split_labels(l.as_str())),
            Option::None => Option::None,
        };
        Some(Config { archive_root: root, desired_systems: desired })
    }
}

} // verus!
