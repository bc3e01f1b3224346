//! From a file's extension to its category.

use crate::casing::lowercase;
use crate::config::{Config, Rules};
use crate::path_text::{extension_of, path_extension};
use vstd::prelude::*;

verus! {

/// Names the category of a file.
pub struct FileClassifier;

/// The label of a file that no rule claims.
pub open spec fn fallback_label() -> Seq<char> {
    "Outros"@
}

/// `extensions` holds `token`, whatever the case in which each was written
/// down. `token` is lowercase already.
pub open spec fn claims(extensions: Seq<Seq<char>>, token: Seq<char>) -> bool {
    exists|i: int| 0 <= i < extensions.len() && lowercase(#[trigger] extensions[i]) == token
}

/// The first entry of `rules` at or behind `from` that claims `token`, or
/// `rules.len()` where there is none.
pub open spec fn first_claim(rules: Rules, token: Seq<char>, from: int) -> int
    decreases rules.len() - from,
{
    if from >= rules.len() {
        rules.len() as int
    } else if claims(rules[from].1, token) {
        from
    } else {
        first_claim(rules, token, from + 1)
    }
}

/// The category of the file that `path` names: the label of the first entry
/// that claims its lowercased extension, and the fallback label where the file
/// has no extension or no entry claims it.
pub open spec fn classification(path: Seq<char>, rules: Rules) -> Seq<char> {
    match extension_of(path) {
        None => fallback_label(),
        Some(extension) => {
            let at = first_claim(rules, lowercase(extension), 0);
            if at < rules.len() {
                rules[at].0
            } else {
                fallback_label()
            }
        },
    }
}

/// Whether one of `extensions` is `token` once lowercased.
fn holds(extensions: &Vec<String>, token: &String) -> (found: bool)
    ensures
        found == claims(extensions.deep_view(), token@),
{
    let mut i: usize = 0;
    while i < extensions.len()
        invariant
            i <= extensions.len(),
            forall|j: int| 0 <= j < i ==> lowercase(#[trigger] extensions.deep_view()[j]) != token@,
        decreases extensions.len() - i,
    {
        let lowered = extensions[i].as_str().to_lowercase();
        if lowered == *token {
            assert(lowercase(extensions.deep_view()[i as int]) == token@);
            return true;
        }
        i += 1;
    }
    false
}

impl FileClassifier {
    /// The category folder of the file at `path` under the rules of `config`.
    pub fn classify(path: &str, config: &Config) -> (label: String)
        ensures
            label@ == classification(path@, config@),
            extension_of(path@) is None ==> label@ == fallback_label(),
    {
        let token = match path_extension(path) {
            Some(extension) => extension.as_str().to_lowercase(),
            None => {
                return "Outros".to_owned();
            },
        };
        let mut i: usize = 0;
        while i < config.rules.len()
            invariant
                i <= config.rules.len(),
                extension_of(path@) matches Some(extension) && token@ == lowercase(extension),
                first_claim(config@, token@, 0) == first_claim(config@, token@, i as int),
            decreases config.rules.len() - i,
        {
            assert(config@[i as int] == (config.rules[i as int].0@, config.rules[i as int].1.deep_view()));
            if holds(&config.rules[i].1, &token) {
                return config.rules[i].0.clone();
            }
            i += 1;
        }
        "Outros".to_owned()
    }
}

/// Where [`first_claim`] points, an entry claims the token, and none before it does.
pub proof fn lemma_first_claim(rules: Rules, token: Seq<char>, from: int)
    requires
        0 <= from <= rules.len(),
    ensures
        from <= first_claim(rules, token, from) <= rules.len(),
        first_claim(rules, token, from) < rules.len() ==> claims(
            rules[first_claim(rules, token, from)].1,
            token,
        ),
        forall|j: int| from <= j < first_claim(rules, token, from) ==> !claims(rules[j].1, token),
    decreases rules.len() - from,
{
    if from < rules.len() && !claims(rules[from].1, token) {
        lemma_first_claim(rules, token, from + 1);
    }
}

/// A file without an extension gets the fallback label, whatever the rules.
pub proof fn no_extension_falls_back(path: Seq<char>, rules: Rules)
    requires
        extension_of(path) is None,
    ensures
        classification(path, rules) == fallback_label(),
{
}

/// A file whose lowercased extension no entry claims gets the fallback label.
pub proof fn unclaimed_falls_back(path: Seq<char>, rules: Rules)
    requires
        extension_of(path) matches Some(extension) && forall|j: int|
            0 <= j < rules.len() ==> !claims(rules[j].1, lowercase(extension)),
    ensures
        classification(path, rules) == fallback_label(),
{
    lemma_first_claim(rules, lowercase(extension_of(path).unwrap()), 0);
}

/// A file whose lowercased extension exactly one entry claims gets that
/// entry's label.
pub proof fn sole_claim_wins(path: Seq<char>, rules: Rules, at: int)
    requires
        0 <= at < rules.len(),
        extension_of(path) matches Some(extension) && claims(rules[at].1, lowercase(extension))
            && forall|j: int|
            0 <= j < rules.len() && j != at ==> !claims(rules[j].1, lowercase(extension)),
    ensures
        classification(path, rules) == rules[at].0,
{
    lemma_first_claim(rules, lowercase(extension_of(path).unwrap()), 0);
}

/// Where several entries claim the lowercased extension, the earliest wins.
pub proof fn earliest_claim_wins(path: Seq<char>, rules: Rules, at: int)
    requires
        0 <= at < rules.len(),
        extension_of(path) matches Some(extension) && claims(rules[at].1, lowercase(extension))
            && forall|j: int| 0 <= j < at ==> !claims(rules[j].1, lowercase(extension)),
    ensures
        classification(path, rules) == rules[at].0,
{
    lemma_first_claim(rules, lowercase(extension_of(path).unwrap()), 0);
}

/// Case plays no part: two files whose extensions have the same lowercase
/// form get the same label.
pub proof fn case_is_ignored(a: Seq<char>, b: Seq<char>, rules: Rules)
    requires
        extension_of(a) is Some,
        extension_of(b) is Some,
        lowercase(extension_of(a).unwrap()) == lowercase(extension_of(b).unwrap()),
    ensures
        classification(a, rules) == classification(b, rules),
{
}

} // verus!
