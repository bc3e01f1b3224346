//! The ruleset: which extensions belong to which category.

use vstd::prelude::*;

verus! {

/// A ruleset as plain values: each entry is a category label with the
/// extensions that it claims.
pub type Rules = Seq<(Seq<char>, Seq<Seq<char>>)>;

/// The rules that sort files into category folders.
///
/// Entries are tried in order, so where two categories claim one extension the
/// earlier entry wins.
#[derive(Debug, Clone, PartialEq, Eq)]
pub struct Config {
    /// Category label and the extensions of that category, without their dot.
    pub rules: Vec<(String, Vec<String>)>,
}

impl View for Config {
    type V = Rules;

    open spec fn view(&self) -> Rules {
        self.rules.deep_view()
    }
}

/// No two entries of `rules` carry the same label.
pub open spec fn labels_distinct(rules: Rules) -> bool {
    forall|i: int, j: int| 0 <= i < j < rules.len() ==> (#[trigger] rules[i]).0 != (#[trigger] rules[j]).0
}

/// The views of `texts`, in order.
pub open spec fn views_of(texts: Seq<&str>) -> Seq<Seq<char>> {
    Seq::new(texts.len(), |i: int| texts[i]@)
}

/// Owned copies of `texts`, in order.
fn owned(texts: &[&str]) -> (copies: Vec<String>)
    ensures
        copies.deep_view() == views_of(texts@),
{
    let mut copies: Vec<String> = Vec::new();
    let mut i: usize = 0;
    while i < texts.len()
        invariant
            i <= texts.len(),
            copies.len() == i,
            forall|j: int| 0 <= j < i ==> copies[j]@ == texts[j]@,
        decreases texts.len() - i,
    {
        copies.push(texts[i].to_owned());
        i += 1;
    }
    proof {
        assert(copies.deep_view() =~= views_of(texts@));
    }
    copies
}

/// The ruleset that [`Config::default`] builds.
pub open spec fn default_rules() -> Rules {
    seq![
        (
            "Imagens"@,
            views_of(seq!["jpg", "jpeg", "png", "gif", "svg", "webp", "bmp", "tiff"]),
        ),
        (
            "Documentos"@,
            views_of(seq!["pdf", "docx", "doc", "txt", "xlsx", "pptx", "md", "csv", "epub"]),
        ),
        ("Videos"@, views_of(seq!["mp4", "mov", "avi", "mkv", "webm", "flv", "wmv"])),
        ("Audio"@, views_of(seq!["mp3", "wav", "flac", "ogg", "aac", "m4a"])),
        ("Compactados"@, views_of(seq!["zip", "rar", "tar", "gz", "7z", "bz2"])),
        ("Aplicativos"@, views_of(seq!["exe", "msi", "dmg", "deb", "rpm", "bat", "sh"])),
        (
            "Codigos"@,
            views_of(seq!["rs", "py", "js", "ts", "html", "css", "c", "cpp", "java", "go"]),
        ),
    ]
}

/// The seven labels of the built-in ruleset are seven different labels.
pub proof fn lemma_default_labels_distinct()
    ensures
        labels_distinct(default_rules()),
{
    reveal_strlit("Imagens");
    reveal_strlit("Documentos");
    reveal_strlit("Videos");
    reveal_strlit("Audio");
    reveal_strlit("Compactados");
    reveal_strlit("Aplicativos");
    reveal_strlit("Codigos");
    let rules = default_rules();
    assert(rules[0].0.len() == 7 && rules[0].0[0] == 'I');
    assert(rules[1].0.len() == 10);
    assert(rules[2].0.len() == 6);
    assert(rules[3].0.len() == 5);
    assert(rules[4].0.len() == 11 && rules[4].0[0] == 'C');
    assert(rules[5].0.len() == 11 && rules[5].0[0] == 'A');
    assert(rules[6].0.len() == 7 && rules[6].0[0] == 'C');
}

impl Default for Config {
    /// The built-in ruleset: seven categories, from images to source code.
    fn default() -> (config: Config)
        ensures
            config@ == default_rules(),
            labels_distinct(config@),
    {
        let mut rules: Vec<(String, Vec<String>)> = Vec::new();
        rules.push(
            (
                "Imagens".to_owned(),
                owned(&["jpg", "jpeg", "png", "gif", "svg", "webp", "bmp", "tiff"]),
            ),
        );
        rules.push(
            (
                "Documentos".to_owned(),
                owned(&["pdf", "docx", "doc", "txt", "xlsx", "pptx", "md", "csv", "epub"]),
            ),
        );
        rules.push(("Videos".to_owned(), owned(&["mp4", "mov", "avi", "mkv", "webm", "flv", "wmv"])));
        rules.push(("Audio".to_owned(), owned(&["mp3", "wav", "flac", "ogg", "aac", "m4a"])));
        rules.push(("Compactados".to_owned(), owned(&["zip", "rar", "tar", "gz", "7z", "bz2"])));
        rules.push(
            ("Aplicativos".to_owned(), owned(&["exe", "msi", "dmg", "deb", "rpm", "bat", "sh"])),
        );
        rules.push(
            (
                "Codigos".to_owned(),
                owned(&["rs", "py", "js", "ts", "html", "css", "c", "cpp", "java", "go"]),
            ),
        );
        let config = Config { rules };
        proof {
            assert(config@ =~= default_rules());
            lemma_default_labels_distinct();
        }
        config
    }
}

} // verus!
