//! Where the settings files live: next to the program (a portable layout)
//! or in the user's application-data folder.

use vstd::prelude::*;
use vstd::utf8::encode_utf8;

use crate::sort::{is_stable_order, le_of, permuted, stable_sort_by, Preorder};
use crate::text::{
    bytes_lt, chars_of, contains, contains_seq, ends_with, has_suffix, lemma_lex_order, lex_lt, to_lowercase,
    unicode_lowercase,
};

verus! {

/// Whether the folder of the running program lies under `Program Files`
/// (compared in Unicode lowercase).
pub fn is_program_files_dir(exe_dir: &str) -> (r: bool)
    ensures
        r == contains_seq(unicode_lowercase(exe_dir@), "program files"@),
{
    contains(&chars_of(to_lowercase(exe_dir).as_str()), &chars_of("program files"))
}

/// Whether settings are kept next to the program: never for an install under
/// Program Files; otherwise when the folder there is writable and either
/// holds the file already or the application-data copy does not exist.
pub fn use_portable_config(
    program_files_install: bool,
    portable_dir_writable: bool,
    portable_exists: bool,
    app_data_exists: bool,
) -> (r: bool)
    ensures
        r == (!program_files_install && portable_dir_writable && (portable_exists || !app_data_exists)),
{
    if program_files_install {
        return false;
    }
    if !portable_dir_writable {
        return false;
    }
    portable_exists || !app_data_exists
}

/// The settings files seeded from the bundled defaults on first run.
pub fn seed_config_files() -> (r: Vec<&'static str>)
    ensures
        r@.len() == 5,
        r@[0]@ == "app_config.json"@,
        r@[1]@ == "gpu_monitor.json"@,
        r@[2]@ == "quota_config.json"@,
        r@[3]@ == "paper_deadline.json"@,
        r@[4]@ == "antigravity_oauth.json"@,
{
    vec!["app_config.json", "gpu_monitor.json", "quota_config.json", "paper_deadline.json", "antigravity_oauth.json"]
}


/// The names, in order, of the backups that settings files that did not
/// parse were moved to: those ending in `.corrupt.json`.
pub open spec fn corrupt_backups(names: Seq<String>) -> Seq<String>
    decreases names.len(),
{
    if names.len() == 0 {
        Seq::empty()
    } else {
        let prev = corrupt_backups(names.drop_last());
        if ends_with(names.last()@, ".corrupt.json"@) {
            prev.push(names.last())
        } else {
            prev
        }
    }
}

/// File names are ordered by their bytes (as `String`'s `Ord`).
pub open spec fn name_le(a: String, b: String) -> bool {
    !lex_lt(encode_utf8(b@), encode_utf8(a@))
}

/// The order of file names by their bytes (see `name_le`).
pub struct NameOrder;

impl Preorder<String> for NameOrder {
    open spec fn le_spec(&self, a: String, b: String) -> bool {
        name_le(a, b)
    }

    fn le(&self, a: &String, b: &String) -> (r: bool) {
        !bytes_lt(b.as_str().as_bytes(), a.as_str().as_bytes())
    }

    proof fn lemma_total(&self, a: String, b: String) {
        lemma_lex_order(encode_utf8(a@), encode_utf8(b@), encode_utf8(a@));
    }

    proof fn lemma_transitive(&self, a: String, b: String, c: String) {
        lemma_lex_order(encode_utf8(c@), encode_utf8(b@), encode_utf8(a@));
        lemma_lex_order(encode_utf8(b@), encode_utf8(a@), encode_utf8(c@));
        lemma_lex_order(encode_utf8(c@), encode_utf8(a@), encode_utf8(b@));
    }
}

/// The backups of settings files that did not parse, among the names of the
/// files in the settings folder: those ending in `.corrupt.json`, sorted by
/// their bytes.
pub fn list_corrupt_config_files(entry_names: Vec<String>) -> (r: Vec<String>)
    ensures
        exists|p: Seq<int>|
            is_stable_order(|a: String, b: String| name_le(a, b), corrupt_backups(entry_names@), p) && r@
                == permuted(corrupt_backups(entry_names@), p),
{
    let ghost orig = entry_names@;
    let n = entry_names.len();
    let mut rest = entry_names;
    let mut kept: Vec<String> = Vec::new();
    let suffix = chars_of(".corrupt.json");
    let mut i: usize = 0;
    while i < n
        invariant
            i <= n,
            n == orig.len(),
            suffix@ == ".corrupt.json"@,
            rest@ == orig.subrange(i as int, n as int),
            kept@ == corrupt_backups(orig.subrange(0, i as int)),
        decreases n - i,
    {
        assert(orig.subrange(0, i + 1).drop_last() =~= orig.subrange(0, i as int));
        let name = rest.remove(0);
        assert(name == orig[i as int]);
        if has_suffix(&chars_of(name.as_str()), &suffix) {
            kept.push(name);
        }
        i += 1;
        assert(rest@ =~= orig.subrange(i as int, n as int));
    }
    assert(orig.subrange(0, n as int) =~= orig);
    let order = NameOrder;
    let sorted = stable_sort_by(kept, &order);
    assert(le_of(order) =~= |a: String, b: String| name_le(a, b));
    sorted
}

} // verus!
