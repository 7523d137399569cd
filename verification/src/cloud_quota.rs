//! Which models of a Cloud Code API answer the quota widget shows: the
//! visible, quota-tracked models, one per display label (the one with the
//! least quota left), ordered by label.

use vstd::prelude::*;
use vstd::utf8::encode_utf8;

use crate::antigravity::{is_blacklisted_model, model_blacklist};
use crate::text::{bytes_lt, chars_equal, chars_of, lemma_lex_order, lex_lt, trim, trim_ws};

verus! {

/// A model entry of the answer, as far as the choice reads it.
#[derive(Debug)]
pub struct CloudModel {
    /// The entry's key under `models`.
    pub key: String,
    /// The `model` id, where it is text.
    pub model: Option<String>,
    /// `isInternal`, where it is a boolean.
    pub is_internal: Option<bool>,
    /// `displayName`, where it is text.
    pub display_name: Option<String>,
    /// Whether `quotaInfo` is an object.
    pub has_quota_info: bool,
    /// A number ordered as the remaining fraction is (that of 0 where the
    /// fraction is missing).
    pub fraction_rank: u64,
}

/// The id a model is known by: its `model` id, else its key.
pub open spec fn model_id(m: CloudModel) -> Seq<char> {
    match m.model {
        Some(id) => id@,
        None => m.key@,
    }
}

/// The label a model is shown under: its display name, trimmed.
pub open spec fn model_label(m: CloudModel) -> Seq<char> {
    match m.display_name {
        Some(n) => trim_ws(n@),
        None => Seq::empty(),
    }
}

/// A model is shown when it is not internal, not hidden, has a label and
/// tracks a quota.
pub open spec fn model_shown(m: CloudModel) -> bool {
    m.is_internal != Some(true) && !model_blacklist().contains(model_id(m)) && model_label(m).len() > 0
        && m.has_quota_info
}

/// Model `i` is the one shown for its label: shown, with no shown model of
/// the same label having less quota left, and every earlier one of the same
/// label having more (the first of those with the least).
pub open spec fn is_choice(ms: Seq<CloudModel>, i: int) -> bool {
    &&& 0 <= i < ms.len()
    &&& model_shown(ms[i])
    &&& forall|j: int|
        0 <= j < ms.len() && model_shown(#[trigger] ms[j]) && model_label(ms[j]) == model_label(ms[i])
            ==> ms[i].fraction_rank <= ms[j].fraction_rank
    &&& forall|j: int|
        0 <= j < i && model_shown(#[trigger] ms[j]) && model_label(ms[j]) == model_label(ms[i])
            ==> ms[i].fraction_rank < ms[j].fraction_rank
}

/// The models shown, as indices: each the choice for its label, one for
/// every label of a shown model, in strictly increasing byte order of label.
pub open spec fn is_selection(ms: Seq<CloudModel>, r: Seq<usize>) -> bool {
    &&& forall|k: int| 0 <= k < r.len() ==> is_choice(ms, #[trigger] r[k] as int)
    &&& forall|k: int, l: int|
        0 <= k < l < r.len() ==> lex_lt(
            encode_utf8(model_label(ms[#[trigger] r[k] as int])),
            encode_utf8(model_label(ms[#[trigger] r[l] as int])),
        )
    &&& forall|j: int|
        0 <= j < ms.len() && model_shown(#[trigger] ms[j]) ==> exists|k: int|
            0 <= k < r.len() && model_label(ms[#[trigger] r[k] as int]) == model_label(ms[j])
}

/// The choice for a label is unique.
pub proof fn lemma_choice_unique(ms: Seq<CloudModel>, i: int, j: int)
    requires
        is_choice(ms, i),
        is_choice(ms, j),
        model_label(ms[i]) == model_label(ms[j]),
    ensures
        i == j,
{
    if i < j {
        assert(ms[j].fraction_rank < ms[i].fraction_rank);
    } else if j < i {
        assert(ms[i].fraction_rank < ms[j].fraction_rank);
    }
}

/// A selection is unique: two selections for the same models are equal.
pub proof fn lemma_selection_unique(ms: Seq<CloudModel>, r: Seq<usize>, s: Seq<usize>)
    requires
        is_selection(ms, r),
        is_selection(ms, s),
    ensures
        r == s,
    decreases r.len() + s.len(),
{
    // Every index of one selection is in the other: its label is shown, so the
    // other holds the choice for that label, which is the same index.
    assert forall|k: int| 0 <= k < r.len() implies s.contains(#[trigger] r[k]) by {
        let i = r[k] as int;
        assert(model_shown(ms[i]));
        let m = choose|m: int| 0 <= m < s.len() && model_label(ms[s[m] as int]) == model_label(ms[i]);
        lemma_choice_unique(ms, s[m] as int, i);
    }
    assert forall|k: int| 0 <= k < s.len() implies r.contains(#[trigger] s[k]) by {
        let i = s[k] as int;
        assert(model_shown(ms[i]));
        let m = choose|m: int| 0 <= m < r.len() && model_label(ms[r[m] as int]) == model_label(ms[i]);
        lemma_choice_unique(ms, r[m] as int, i);
    }
    lemma_sorted_same_members(ms, r, s);
}

/// Two lists strictly sorted by label that hold the same members are equal.
proof fn lemma_sorted_same_members(ms: Seq<CloudModel>, r: Seq<usize>, s: Seq<usize>)
    requires
        forall|k: int, l: int|
            0 <= k < l < r.len() ==> lex_lt(
                encode_utf8(model_label(ms[#[trigger] r[k] as int])),
                encode_utf8(model_label(ms[#[trigger] r[l] as int])),
            ),
        forall|k: int, l: int|
            0 <= k < l < s.len() ==> lex_lt(
                encode_utf8(model_label(ms[#[trigger] s[k] as int])),
                encode_utf8(model_label(ms[#[trigger] s[l] as int])),
            ),
        forall|k: int| 0 <= k < r.len() ==> s.contains(#[trigger] r[k]),
        forall|k: int| 0 <= k < s.len() ==> r.contains(#[trigger] s[k]),
    ensures
        r == s,
    decreases r.len() + s.len(),
{
    if r.len() == 0 {
        if s.len() > 0 {
            assert(r.contains(s[0]));
        }
        assert(s =~= r);
    } else if s.len() == 0 {
        assert(s.contains(r[0]));
    } else {
        let lab = |x: usize| encode_utf8(model_label(ms[x as int]));
        // The first of each is the least of both.
        assert(r[0] == s[0]) by {
            let a = r[0];
            let b = s[0];
            let ka = choose|k: int| 0 <= k < s.len() && s[k] == a;
            let kb = choose|k: int| 0 <= k < r.len() && r[k] == b;
            if a != b {
                assert(ka > 0);
                assert(kb > 0);
                assert(lex_lt(lab(b), lab(a)));
                assert(lex_lt(lab(a), lab(b)));
                lemma_lex_order(lab(a), lab(b), lab(a));
            }
        }
        let r1 = r.drop_first();
        let s1 = s.drop_first();
        assert forall|k: int| 0 <= k < r1.len() implies s1.contains(#[trigger] r1[k]) by {
            assert(s.contains(r[k + 1]));
            let m = choose|m: int| 0 <= m < s.len() && s[m] == r[k + 1];
            if m == 0 {
                assert(lex_lt(lab(r[0]), lab(r[k + 1])));
                lemma_lex_order(lab(r[0]), lab(r[0]), lab(r[0]));
            }
            assert(s1[m - 1] == r1[k]);
        }
        assert forall|k: int| 0 <= k < s1.len() implies r1.contains(#[trigger] s1[k]) by {
            assert(r.contains(s[k + 1]));
            let m = choose|m: int| 0 <= m < r.len() && r[m] == s[k + 1];
            if m == 0 {
                assert(lex_lt(lab(s[0]), lab(s[k + 1])));
                lemma_lex_order(lab(s[0]), lab(s[0]), lab(s[0]));
            }
            assert(r1[m - 1] == s1[k]);
        }
        assert forall|k: int, l: int| 0 <= k < l < r1.len() implies lex_lt(
            encode_utf8(model_label(ms[#[trigger] r1[k] as int])),
            encode_utf8(model_label(ms[#[trigger] r1[l] as int])),
        ) by {
            assert(r1[k] == r[k + 1] && r1[l] == r[l + 1]);
        }
        assert forall|k: int, l: int| 0 <= k < l < s1.len() implies lex_lt(
            encode_utf8(model_label(ms[#[trigger] s1[k] as int])),
            encode_utf8(model_label(ms[#[trigger] s1[l] as int])),
        ) by {
            assert(s1[k] == s[k + 1] && s1[l] == s[l + 1]);
        }
        lemma_sorted_same_members(ms, r1, s1);
        assert(r =~= seq![r[0]] + r1);
        assert(s =~= seq![s[0]] + s1);
    }
}

/// Model `c` is the choice for its label among the first `n` models.
pub open spec fn is_choice_upto(ms: Seq<CloudModel>, n: int, c: int) -> bool {
    &&& 0 <= c < n <= ms.len()
    &&& model_shown(ms[c])
    &&& forall|j: int|
        0 <= j < n && model_shown(#[trigger] ms[j]) && model_label(ms[j]) == model_label(ms[c])
            ==> ms[c].fraction_rank <= ms[j].fraction_rank
    &&& forall|j: int|
        0 <= j < c && model_shown(#[trigger] ms[j]) && model_label(ms[j]) == model_label(ms[c])
            ==> ms[c].fraction_rank < ms[j].fraction_rank
}

/// The label of a model (see `model_label`).
fn label_exec(m: &CloudModel) -> (r: String)
    ensures
        r@ == model_label(*m),
{
    match &m.display_name {
        Some(n) => trim(n.as_str()),
        None => String::new(),
    }
}

/// Whether a model is shown (see `model_shown`).
fn shown_exec(m: &CloudModel, label: &String) -> (r: bool)
    requires
        label@ == model_label(*m),
    ensures
        r == model_shown(*m),
{
    let internal = match m.is_internal {
        Some(b) => b,
        None => false,
    };
    let id = match &m.model {
        Some(id) => id.as_str(),
        None => m.key.as_str(),
    };
    !internal && !is_blacklisted_model(id) && !label.as_str().is_empty() && m.has_quota_info
}

/// The position among `labels` of one equal to `label`.
fn label_position(labels: &Vec<String>, label: &String) -> (r: Option<usize>)
    ensures
        match r {
            Some(p) => p < labels@.len() && labels@[p as int]@ == label@,
            None => forall|k: int| 0 <= k < labels@.len() ==> labels@[k]@ != label@,
        },
{
    let target = chars_of(label.as_str());
    let mut k: usize = 0;
    while k < labels.len()
        invariant
            k <= labels@.len(),
            target@ == label@,
            forall|m: int| 0 <= m < k ==> labels@[m]@ != label@,
        decreases labels@.len() - k,
    {
        if chars_equal(&chars_of(labels[k].as_str()), &target) {
            return Some(k);
        }
        k += 1;
    }
    None
}

/// The models the quota widget shows, as indices (see `is_selection`).
pub fn select_model_quotas(models: &Vec<CloudModel>) -> (r: Vec<usize>)
    ensures
        is_selection(models@, r@),
{
    let ghost ms = models@;
    let mut chosen: Vec<usize> = Vec::new();
    let mut labels: Vec<String> = Vec::new();
    let mut i: usize = 0;
    while i < models.len()
        invariant
            ms == models@,
            i <= ms.len(),
            chosen@.len() == labels@.len(),
            forall|k: int| 0 <= k < chosen@.len() ==> is_choice_upto(ms, i as int, #[trigger] chosen@[k] as int),
            forall|k: int| 0 <= k < chosen@.len() ==> (#[trigger] labels@[k])@ == model_label(ms[chosen@[k] as int]),
            forall|k: int, l: int|
                0 <= k < l < labels@.len() ==> (#[trigger] labels@[k])@ != (#[trigger] labels@[l])@,
            forall|j: int|
                0 <= j < i && model_shown(#[trigger] ms[j]) ==> exists|k: int|
                    0 <= k < labels@.len() && (#[trigger] labels@[k])@ == model_label(ms[j]),
        decreases ms.len() - i,
    {
        let label = label_exec(&models[i]);
        let ghost mut wit: int = 0;
        let ghost old_labels = labels@;
        if shown_exec(&models[i], &label) {
            match label_position(&labels, &label) {
                Some(p) => {
                    let c = chosen[p];
                    if models[i].fraction_rank < models[c].fraction_rank {
                        chosen.set(p, i);
                    }
                    proof {
                        assert forall|k: int| 0 <= k < chosen@.len() implies is_choice_upto(
                            ms,
                            i + 1,
                            #[trigger] chosen@[k] as int,
                        ) by {
                            if k != p {
                                assert(labels@[k]@ != labels@[p as int]@ || k == p);
                            }
                        }
                        assert(labels@[p as int]@ == model_label(ms[i as int]));
                        wit = p as int;
                    }
                },
                None => {
                    proof {
                        assert forall|j: int|
                            0 <= j < i && model_shown(#[trigger] ms[j]) implies model_label(ms[j]) != label@ by {
                            let k = choose|k: int|
                                0 <= k < labels@.len() && (#[trigger] labels@[k])@ == model_label(ms[j]);
                        }
                    }
                    chosen.push(i);
                    labels.push(label);
                    proof {
                        assert(labels@[labels@.len() - 1]@ == model_label(ms[i as int]));
                        wit = labels@.len() - 1;
                    }
                },
            }
        }
        proof {
            assert forall|j: int|
                0 <= j < i + 1 && model_shown(#[trigger] ms[j]) implies exists|k: int|
                    0 <= k < labels@.len() && (#[trigger] labels@[k])@ == model_label(ms[j]) by {
                if j == i {
                    assert(0 <= wit < labels@.len() && labels@[wit]@ == model_label(ms[j]));
                } else {
                    let k = choose|k: int|
                        0 <= k < old_labels.len() && (#[trigger] old_labels[k])@ == model_label(ms[j]);
                    assert(labels@[k] == old_labels[k]);
                }

            }
        }
        i += 1;
    }
    // Order the choices by label, inserting each into its place.
    let mut sorted: Vec<usize> = Vec::new();
    let mut sorted_labels: Vec<String> = Vec::new();
    let mut p: usize = 0;
    while p < chosen.len()
        invariant
            ms == models@,
            p <= chosen@.len(),
            chosen@.len() == labels@.len(),
            sorted@.len() == sorted_labels@.len(),
            forall|k: int| 0 <= k < chosen@.len() ==> is_choice(ms, #[trigger] chosen@[k] as int),
            forall|k: int| 0 <= k < chosen@.len() ==> (#[trigger] labels@[k])@ == model_label(ms[chosen@[k] as int]),
            forall|k: int, l: int|
                0 <= k < l < labels@.len() ==> (#[trigger] labels@[k])@ != (#[trigger] labels@[l])@,
            forall|j: int|
                0 <= j < ms.len() && model_shown(#[trigger] ms[j]) ==> exists|k: int|
                    0 <= k < labels@.len() && (#[trigger] labels@[k])@ == model_label(ms[j]),
            forall|m: int| 0 <= m < sorted@.len() ==> exists|k: int| 0 <= k < p && #[trigger] sorted@[m] == chosen@[k],
            forall|k: int| 0 <= k < p ==> sorted@.contains(#[trigger] chosen@[k]),
            forall|m: int| 0 <= m < sorted@.len() ==> (#[trigger] sorted_labels@[m])@ == model_label(ms[sorted@[m] as int]),
            forall|m: int, n: int|
                0 <= m < n < sorted@.len() ==> lex_lt(
                    encode_utf8((#[trigger] sorted_labels@[m])@),
                    encode_utf8((#[trigger] sorted_labels@[n])@),
                ),
        decreases chosen@.len() - p,
    {
        let c = chosen[p];
        let lab = labels[p].clone();
        let mut q: usize = 0;
        while q < sorted.len() && !bytes_lt(lab.as_str().as_bytes(), sorted_labels[q].as_str().as_bytes())
            invariant
                q <= sorted@.len(),
                sorted@.len() == sorted_labels@.len(),
                forall|m: int| 0 <= m < q ==> !lex_lt(encode_utf8(lab@), encode_utf8((#[trigger] sorted_labels@[m])@)),
            decreases sorted@.len() - q,
        {
            q += 1;
        }
        proof {
            // Every label placed is another choice's, so differs from `lab`.
            assert forall|m: int| 0 <= m < sorted@.len() implies (#[trigger] sorted_labels@[m])@ != lab@ by {
                let k = choose|k: int| 0 <= k < p && sorted@[m] == chosen@[k];
                assert(labels@[k]@ != labels@[p as int]@);
            }
            assert forall|m: int| 0 <= m < q implies lex_lt(encode_utf8((#[trigger] sorted_labels@[m])@), encode_utf8(lab@)) by {
                lemma_lex_order(encode_utf8(sorted_labels@[m]@), encode_utf8(lab@), encode_utf8(lab@));
                if encode_utf8(sorted_labels@[m]@) == encode_utf8(lab@) {
                    vstd::utf8::encode_utf8_decode_utf8(sorted_labels@[m]@);
                    vstd::utf8::encode_utf8_decode_utf8(lab@);
                }
            }
        }
        let ghost old_sorted = sorted@;
        let ghost old_labels = sorted_labels@;
        sorted.insert(q, c);
        sorted_labels.insert(q, lab);
        proof {
            assert forall|m: int, n: int|
                0 <= m < n < sorted@.len() implies lex_lt(
                    encode_utf8((#[trigger] sorted_labels@[m])@),
                    encode_utf8((#[trigger] sorted_labels@[n])@),
                ) by {
                if n == q {
                    assert(sorted_labels@[m] == old_labels[m]);
                } else if m == q {
                    assert(sorted_labels@[n] == old_labels[n - 1]);
                    if n - 1 > q {
                        lemma_lex_order(
                            encode_utf8(lab@),
                            encode_utf8(old_labels[q as int]@),
                            encode_utf8(old_labels[n - 1]@),
                        );
                    }
                } else if m < q && n > q {
                    assert(sorted_labels@[n] == old_labels[n - 1]);
                    if n - 1 > m {
                        assert(lex_lt(encode_utf8(old_labels[m]@), encode_utf8(old_labels[n - 1]@)));
                    }
                } else if m > q {
                    assert(sorted_labels@[m] == old_labels[m - 1]);
                    assert(sorted_labels@[n] == old_labels[n - 1]);
                }
            }
            assert forall|m: int| 0 <= m < sorted@.len() implies exists|k: int|
                0 <= k < p + 1 && #[trigger] sorted@[m] == chosen@[k] by {
                if m < q {
                    assert(sorted@[m] == old_sorted[m]);
                } else if m > q {
                    assert(sorted@[m] == old_sorted[m - 1]);
                } else {
                    assert(sorted@[m] == chosen@[p as int]);
                }
            }
            assert forall|k: int| 0 <= k < p + 1 implies sorted@.contains(#[trigger] chosen@[k]) by {
                if k == p {
                    assert(sorted@[q as int] == chosen@[k]);
                } else {
                    let m = choose|m: int| 0 <= m < old_sorted.len() && old_sorted[m] == chosen@[k];
                    if m < q {
                        assert(sorted@[m] == chosen@[k]);
                    } else {
                        assert(sorted@[m + 1] == chosen@[k]);
                    }
                }
            }
            assert forall|m: int| 0 <= m < sorted@.len() implies (#[trigger] sorted_labels@[m])@ == model_label(
                ms[sorted@[m] as int],
            ) by {
                if m < q {
                    assert(sorted@[m] == old_sorted[m]);
                } else if m > q {
                    assert(sorted@[m] == old_sorted[m - 1]);
                }
            }
        }
        p += 1;
    }
    proof {
        assert forall|k: int| 0 <= k < sorted@.len() implies is_choice(ms, #[trigger] sorted@[k] as int) by {
            let j = choose|j: int| 0 <= j < chosen@.len() && sorted@[k] == chosen@[j];
        }
        assert forall|j: int|
            0 <= j < ms.len() && model_shown(#[trigger] ms[j]) implies exists|k: int|
                0 <= k < sorted@.len() && model_label(ms[#[trigger] sorted@[k] as int]) == model_label(ms[j]) by {
            let c = choose|c: int| 0 <= c < labels@.len() && (#[trigger] labels@[c])@ == model_label(ms[j]);
            assert(sorted@.contains(chosen@[c]));
            let k = choose|k: int| 0 <= k < sorted@.len() && sorted@[k] == chosen@[c];
            assert(model_label(ms[sorted@[k] as int]) == model_label(ms[j]));
        }
        assert forall|k: int, l: int|
            0 <= k < l < sorted@.len() implies lex_lt(
                encode_utf8(model_label(ms[#[trigger] sorted@[k] as int])),
                encode_utf8(model_label(ms[#[trigger] sorted@[l] as int])),
            ) by {
            assert(sorted_labels@[k]@ == model_label(ms[sorted@[k] as int]));
            assert(sorted_labels@[l]@ == model_label(ms[sorted@[l] as int]));
        }
    }
    sorted
}

} // verus!
