use organizer::classifier::FileClassifier;
use organizer::config::Config;
use organizer::ops::{Action, Event, FileOps, MoveResult};
use std::collections::BTreeMap;

/// What stands at a path of the pretended disk: the content, and whether it
/// is a regular file.
#[derive(Debug, Clone, PartialEq)]
struct Entry {
    content: String,
    regular: bool,
}

/// A disk in memory that answers a relocation as a real one would.
#[derive(Debug, Clone, PartialEq, Default)]
struct Disk {
    entries: BTreeMap<String, Entry>,
    create_error: Option<String>,
    move_error: Option<String>,
    asked: Vec<Action>,
}

impl Disk {
    fn file(mut self, path: &str, content: &str) -> Disk {
        self.entries
            .insert(path.to_string(), Entry { content: content.to_string(), regular: true });
        self
    }

    fn folder(mut self, path: &str) -> Disk {
        self.entries.insert(path.to_string(), Entry { content: String::new(), regular: false });
        self
    }

    fn content(&self, path: &str) -> Option<&str> {
        self.entries.get(path).map(|entry| entry.content.as_str())
    }

    fn perform(&mut self, action: &Action) -> Event {
        self.asked.push(action.clone());
        match action {
            Action::CheckSource(path) => {
                Event::Answer(self.entries.get(path).is_some_and(|entry| entry.regular))
            }
            Action::CheckFolder(path) | Action::CheckTarget(path) => {
                Event::Answer(self.entries.contains_key(path))
            }
            Action::CreateFolder(path) => match &self.create_error {
                Some(reason) => Event::Error(reason.clone()),
                None => {
                    self.entries
                        .entry(path.clone())
                        .or_insert(Entry { content: String::new(), regular: false });
                    Event::Done
                }
            },
            Action::CompareFiles { source, target } => {
                Event::Answer(source == target && self.entries.contains_key(source))
            }
            Action::Move { from, to } => match &self.move_error {
                Some(reason) => Event::Error(reason.clone()),
                None => {
                    let entry = self.entries.remove(from).unwrap();
                    self.entries.insert(to.clone(), entry);
                    Event::Done
                }
            },
            Action::Finish(_) => unreachable!(),
        }
    }

    fn organize(&mut self, source: &str, root: &str, category: &str, hidden: bool) -> MoveResult {
        let mut relocation = FileOps::organize_file(source, root, category, hidden);
        for _ in 0..10_000 {
            let action = relocation.pending();
            if let Action::Finish(result) = action {
                return result;
            }
            let event = self.perform(&action);
            relocation = relocation.step(event);
        }
        panic!("the relocation did not end");
    }
}

#[test]
fn free_name_is_moved_under_it() {
    let mut disk = Disk::default().file("in/foto.jpg", "um").folder("out/Imagens");
    let result = disk.organize("in/foto.jpg", "out", "Imagens", false);
    assert_eq!(result, MoveResult::Moved("out/Imagens/foto.jpg".to_string()));
    assert_eq!(disk.content("out/Imagens/foto.jpg"), Some("um"));
    assert_eq!(disk.content("in/foto.jpg"), None);
}

#[test]
fn classified_photo_is_moved_into_its_folder() {
    let config = Config {
        rules: vec![("Imagens".to_string(), vec!["jpg".to_string(), "png".to_string()])],
    };
    let label = FileClassifier::classify("photo.JPG", &config);
    assert_eq!(label, "Imagens");
    let mut disk = Disk::default().file("photo.JPG", "x").folder("Imagens");
    let result = disk.organize("photo.JPG", "", &label, false);
    assert_eq!(result, MoveResult::Moved("Imagens/photo.JPG".to_string()));
    assert_eq!(disk.content("Imagens/photo.JPG"), Some("x"));
}

#[test]
fn the_questions_come_in_order() {
    let mut disk = Disk::default().file("in/a.txt", "a");
    let result = disk.organize("in/a.txt", "out", "Docs", true);
    assert_eq!(result, MoveResult::Moved("out/Docs/a.txt".to_string()));
    assert_eq!(
        disk.asked,
        vec![
            Action::CheckSource("in/a.txt".to_string()),
            Action::CheckFolder("out/Docs".to_string()),
            Action::CreateFolder("out/Docs".to_string()),
            Action::CheckTarget("out/Docs/a.txt".to_string()),
            Action::Move { from: "in/a.txt".to_string(), to: "out/Docs/a.txt".to_string() },
        ]
    );
}

#[test]
fn existing_folder_is_not_created_again() {
    let mut disk = Disk::default().file("in/a.txt", "a").folder("out/Docs");
    disk.create_error = Some("must not be asked".to_string());
    let result = disk.organize("in/a.txt", "out", "Docs", false);
    assert_eq!(result, MoveResult::Moved("out/Docs/a.txt".to_string()));
    assert!(!disk.asked.contains(&Action::CreateFolder("out/Docs".to_string())));
}

#[test]
fn three_namesakes_are_moved_and_numbered() {
    let mut disk = Disk::default()
        .file("a/nota.txt", "um")
        .file("b/nota.txt", "dois")
        .file("c/nota.txt", "tres")
        .folder("out/Docs");
    let first = disk.organize("a/nota.txt", "out", "Docs", false);
    let second = disk.organize("b/nota.txt", "out", "Docs", false);
    let third = disk.organize("c/nota.txt", "out", "Docs", false);
    assert_eq!(first, MoveResult::Moved("out/Docs/nota.txt".to_string()));
    assert_eq!(second, MoveResult::Renamed("out/Docs/nota_1.txt".to_string()));
    assert_eq!(third, MoveResult::Renamed("out/Docs/nota_2.txt".to_string()));
    assert_eq!(disk.content("out/Docs/nota.txt"), Some("um"));
    assert_eq!(disk.content("out/Docs/nota_1.txt"), Some("dois"));
    assert_eq!(disk.content("out/Docs/nota_2.txt"), Some("tres"));
    assert_eq!(disk.entries.len(), 4);
}

#[test]
fn smallest_free_counter_is_taken() {
    let mut disk = Disk::default()
        .file("in/nota.txt", "novo")
        .folder("out/Docs")
        .file("out/Docs/nota.txt", "0")
        .file("out/Docs/nota_1.txt", "1")
        .file("out/Docs/nota_2.txt", "2")
        .file("out/Docs/nota_4.txt", "4");
    let result = disk.organize("in/nota.txt", "out", "Docs", false);
    assert_eq!(result, MoveResult::Renamed("out/Docs/nota_3.txt".to_string()));
    assert_eq!(disk.content("out/Docs/nota_3.txt"), Some("novo"));
    assert_eq!(disk.content("out/Docs/nota_4.txt"), Some("4"));
}

#[test]
fn name_without_extension_is_numbered_at_its_end() {
    let mut disk =
        Disk::default().file("in/README", "novo").folder("out/Outros").file("out/Outros/README", "x");
    let result = disk.organize("in/README", "out", "Outros", false);
    assert_eq!(result, MoveResult::Renamed("out/Outros/README_1".to_string()));
}

#[test]
fn nothing_in_the_folder_is_overwritten() {
    let mut disk = Disk::default()
        .folder("out/Docs")
        .file("out/Docs/nota.txt", "antigo")
        .file("out/Docs/nota_1.txt", "antigo 1")
        .file("out/Docs/outro.md", "outro");
    let before = disk.entries.clone();
    for n in 0..20 {
        let source = format!("in{n}/nota.txt");
        disk = disk.file(&source, &format!("novo {n}"));
        let result = disk.organize(&source, "out", "Docs", false);
        assert_eq!(result, MoveResult::Renamed(format!("out/Docs/nota_{}.txt", n + 2)));
    }
    for (path, entry) in &before {
        assert_eq!(disk.entries.get(path), Some(entry), "{path}");
    }
    assert_eq!(disk.entries.len(), before.len() + 20);
}

#[test]
fn second_relocation_of_a_moved_file_is_ignored() {
    let mut disk = Disk::default().file("in/foto.jpg", "um");
    let first = disk.organize("in/foto.jpg", "out", "Imagens", false);
    assert_eq!(first, MoveResult::Moved("out/Imagens/foto.jpg".to_string()));
    let settled = disk.entries.clone();
    let second = disk.organize("out/Imagens/foto.jpg", "out", "Imagens", false);
    assert_eq!(second, MoveResult::Ignored("Mesmo arquivo (já organizado)".to_string()));
    assert_eq!(disk.entries, settled);
}

#[test]
fn second_relocation_of_a_renamed_file_is_ignored() {
    let mut disk = Disk::default()
        .file("in/foto.jpg", "novo")
        .folder("out/Imagens")
        .file("out/Imagens/foto.jpg", "antigo");
    let first = disk.organize("in/foto.jpg", "out", "Imagens", false);
    assert_eq!(first, MoveResult::Renamed("out/Imagens/foto_1.jpg".to_string()));
    let settled = disk.entries.clone();
    let second = disk.organize("out/Imagens/foto_1.jpg", "out", "Imagens", false);
    assert_eq!(second, MoveResult::Ignored("Mesmo arquivo (já organizado)".to_string()));
    assert_eq!(disk.entries, settled);
}

#[test]
fn hidden_file_stays_where_hidden_files_are_ignored() {
    let mut disk = Disk::default().file("in/.env", "segredo");
    let settled = disk.entries.clone();
    let result = disk.organize("in/.env", "out", "Outros", true);
    assert_eq!(result, MoveResult::Ignored("Arquivo oculto".to_string()));
    assert_eq!(disk.entries, settled);
    assert_eq!(disk.asked, vec![Action::CheckSource("in/.env".to_string())]);
}

#[test]
fn hidden_file_is_moved_where_hidden_files_are_not_ignored() {
    let mut disk = Disk::default().file("in/.env", "segredo");
    let result = disk.organize("in/.env", "out", "Outros", false);
    assert_eq!(result, MoveResult::Moved("out/Outros/.env".to_string()));
}

#[test]
fn missing_source_fails() {
    let mut disk = Disk::default();
    let result = disk.organize("in/nada.txt", "out", "Docs", false);
    assert_eq!(result, MoveResult::Failed("Arquivo de origem inválido".to_string()));
    assert!(disk.entries.is_empty());
}

#[test]
fn folder_as_source_fails() {
    let mut disk = Disk::default().folder("in/pasta");
    let result = disk.organize("in/pasta", "out", "Docs", true);
    assert_eq!(result, MoveResult::Failed("Arquivo de origem inválido".to_string()));
}

#[test]
fn missing_hidden_source_fails_before_the_hidden_policy() {
    let mut disk = Disk::default();
    let result = disk.organize("in/.env", "out", "Docs", true);
    assert_eq!(result, MoveResult::Failed("Arquivo de origem inválido".to_string()));
}

#[test]
fn source_without_file_name_fails() {
    let mut disk = Disk::default().file("in/..", "x");
    let result = disk.organize("in/..", "out", "Docs", false);
    assert_eq!(result, MoveResult::Failed("Nome de arquivo inválido".to_string()));
    assert_eq!(disk.asked, vec![Action::CheckSource("in/..".to_string())]);
}

#[test]
fn folder_that_cannot_be_created_fails_and_leaves_the_source() {
    let mut disk = Disk::default().file("in/a.txt", "a");
    disk.create_error = Some("Not a directory (os error 20)".to_string());
    let settled = disk.entries.clone();
    let result = disk.organize("in/a.txt", "out", "Docs", false);
    assert_eq!(
        result,
        MoveResult::Failed("Falha ao criar diretório: Not a directory (os error 20)".to_string())
    );
    assert_eq!(disk.entries, settled);
}

#[test]
fn move_that_fails_leaves_the_source() {
    let mut disk = Disk::default().file("in/a.txt", "a").folder("out/Docs");
    disk.move_error = Some("Permission denied (os error 13)".to_string());
    let settled = disk.entries.clone();
    let result = disk.organize("in/a.txt", "out", "Docs", false);
    assert_eq!(
        result,
        MoveResult::Failed("Erro ao mover: Permission denied (os error 13)".to_string())
    );
    assert_eq!(disk.entries, settled);
}

#[test]
fn renamed_move_that_fails_leaves_everything() {
    let mut disk =
        Disk::default().file("in/a.txt", "novo").folder("out/Docs").file("out/Docs/a.txt", "antigo");
    disk.move_error = Some("disk full".to_string());
    let settled = disk.entries.clone();
    let result = disk.organize("in/a.txt", "out", "Docs", false);
    assert_eq!(result, MoveResult::Failed("Erro ao mover: disk full".to_string()));
    assert_eq!(disk.entries, settled);
}

#[test]
fn numbered_candidates_are_tried_in_order() {
    let mut relocation = FileOps::organize_file("in/a.txt", "out", "Docs", false);
    relocation = relocation.step(Event::Answer(true));
    relocation = relocation.step(Event::Answer(true));
    relocation = relocation.step(Event::Answer(true));
    assert_eq!(
        relocation.pending(),
        Action::CompareFiles {
            source: "in/a.txt".to_string(),
            target: "out/Docs/a.txt".to_string()
        }
    );
    relocation = relocation.step(Event::Answer(false));
    for k in 1..50u64 {
        assert_eq!(relocation.pending(), Action::CheckTarget(format!("out/Docs/a_{k}.txt")));
        relocation = relocation.step(Event::Answer(true));
    }
    assert_eq!(relocation.pending(), Action::CheckTarget("out/Docs/a_50.txt".to_string()));
}

#[test]
fn reply_that_answers_nothing_changes_nothing() {
    let mut relocation = FileOps::organize_file("in/a.txt", "out", "Docs", false);
    relocation = relocation.step(Event::Done);
    assert_eq!(relocation.pending(), Action::CheckSource("in/a.txt".to_string()));
    relocation = relocation.step(Event::Error("x".to_string()));
    assert_eq!(relocation.pending(), Action::CheckSource("in/a.txt".to_string()));
    relocation = relocation.step(Event::Answer(true));
    relocation = relocation.step(Event::Answer(false));
    assert_eq!(relocation.pending(), Action::CreateFolder("out/Docs".to_string()));
    relocation = relocation.step(Event::Answer(true));
    assert_eq!(relocation.pending(), Action::CreateFolder("out/Docs".to_string()));
    relocation = relocation.step(Event::Done);
    relocation = relocation.step(Event::Answer(false));
    let moving =
        Action::Move { from: "in/a.txt".to_string(), to: "out/Docs/a.txt".to_string() };
    assert_eq!(relocation.pending(), moving);
    relocation = relocation.step(Event::Answer(false));
    assert_eq!(relocation.pending(), moving);
    relocation = relocation.step(Event::Done);
    let moved = Action::Finish(MoveResult::Moved("out/Docs/a.txt".to_string()));
    assert_eq!(relocation.pending(), moved);
    relocation = relocation.step(Event::Error("late".to_string()));
    relocation = relocation.step(Event::Answer(true));
    relocation = relocation.step(Event::Done);
    assert_eq!(relocation.pending(), moved);
}

#[test]
fn category_folder_goes_under_the_destination_root() {
    let cases = [
        (("a.txt", "", "Docs"), "Docs/a.txt"),
        (("a.txt", "out/", "Docs"), "out/Docs/a.txt"),
        (("x/y/a.txt", "/abs", "Docs"), "/abs/Docs/a.txt"),
        (("a.txt", "out", "/raiz"), "/raiz/a.txt"),
    ];
    for ((source, root, category), expected) in cases {
        let mut disk = Disk::default().file(source, "a");
        let result = disk.organize(source, root, category, false);
        assert_eq!(result, MoveResult::Moved(expected.to_string()));
    }
}
