use bot_evolution::expression::{Expression, ExpressionKind, Move};
use bot_evolution::family_tree::{Entry, FamilyTree, Species, SpeciesInfo, NAME_TABLE_SIZE};
use bot_evolution::logic_ext::Direction;
use bot_evolution::population::Bot;
use bot_evolution::score::BotScore;

fn score(wins: usize) -> BotScore {
    BotScore { wins: [wins, 0, 0], ..BotScore::default() }
}

fn bot(species: u64, wins: usize) -> Bot {
    Bot {
        logic: Expression::new(ExpressionKind::ConstantMove(Move::Move(Direction::North))),
        species: Species(species),
        score: score(wins),
        generation: 0,
        parents: None,
    }
}

fn names(words: &[&str]) -> Vec<String> {
    words.iter().map(|w| w.to_string()).collect()
}

#[test]
fn a_new_tree_is_empty() {
    let tree = FamilyTree::new();
    assert!(tree.entries().is_empty());
    assert_eq!(tree.info(Species(1)), None);
}

#[test]
fn species_are_introduced_in_the_round_in_which_they_appear() {
    let mut tree = FamilyTree::new();
    let child = Bot { parents: Some((Species(1), Species(2))), ..bot(3, 4) };
    tree.analize(&[bot(1, 5), bot(2, 1), bot(1, 7), child, bot(1, 6)], 4);
    assert_eq!(
        tree.info(Species(1)),
        Some(SpeciesInfo {
            round_introduced: 4,
            round_extinct: None,
            parents: None,
            best_score: score(7)
        })
    );
    assert_eq!(
        tree.info(Species(3)),
        Some(SpeciesInfo {
            round_introduced: 4,
            round_extinct: None,
            parents: Some((Species(1), Species(2))),
            best_score: score(4)
        })
    );
    assert_eq!(tree.info(Species(9)), None);
    let order: Vec<u64> = tree.entries().iter().map(|e| e.species.0).collect();
    assert_eq!(order, vec![1, 2, 3]);
}

#[test]
fn the_round_of_introduction_and_the_best_score_are_kept() {
    let mut tree = FamilyTree::new();
    tree.analize(&[bot(1, 5), bot(2, 1)], 0);
    tree.analize(&[bot(1, 3), bot(2, 2), bot(3, 9)], 1);
    let one = tree.info(Species(1)).unwrap();
    assert_eq!(one.round_introduced, 0);
    // a worse generation does not lower the best score
    assert_eq!(one.best_score, score(5));
    assert_eq!(tree.info(Species(2)).unwrap().best_score, score(2));
    assert_eq!(tree.info(Species(3)).unwrap().round_introduced, 1);
    assert_eq!(tree.entries().len(), 3);
}

#[test]
fn an_extinct_species_stays_extinct() {
    let mut tree = FamilyTree::new();
    tree.analize(&[bot(1, 5), bot(2, 1)], 0);
    tree.analize(&[bot(2, 1)], 3);
    assert_eq!(tree.info(Species(1)).unwrap().round_extinct, Some(3));
    assert_eq!(tree.info(Species(2)).unwrap().round_extinct, None);
    tree.analize(&[bot(2, 1)], 4);
    assert_eq!(tree.info(Species(1)).unwrap().round_extinct, Some(3));
    // not even when the identifier comes up again
    tree.analize(&[bot(1, 8)], 5);
    let one = tree.info(Species(1)).unwrap();
    assert_eq!(one.round_extinct, Some(3));
    assert_eq!(one.round_introduced, 0);
    assert_eq!(one.best_score, score(8));
    assert_eq!(tree.info(Species(2)).unwrap().round_extinct, Some(5));
    tree.analize(&[], 6);
    assert_eq!(tree.info(Species(1)).unwrap().round_extinct, Some(3));
    assert_eq!(tree.info(Species(2)).unwrap().round_extinct, Some(5));
    // no entry is ever deleted
    assert_eq!(tree.entries().len(), 2);
}

#[test]
fn a_tree_can_be_copied() {
    let mut tree = FamilyTree::new();
    tree.analize(&[bot(1, 5), bot(2, 1)], 2);
    let copy = tree.clone();
    assert_eq!(copy.entries(), tree.entries());
    assert_eq!(
        copy.entries()[1],
        Entry {
            species: Species(2),
            info: SpeciesInfo {
                round_introduced: 2,
                round_extinct: None,
                parents: None,
                best_score: score(1)
            }
        }
    );
}

#[test]
fn name_indices_of_a_species() {
    assert_eq!(NAME_TABLE_SIZE, 4096);
    assert_eq!(Species(0).name_indices(), (0, 0));
    assert_eq!(Species(4095).name_indices(), (4095, 0));
    assert_eq!(Species(4096).name_indices(), (0, 1));
    assert_eq!(Species(5 + 7 * 4096).name_indices(), (5, 7));
    assert_eq!(Species(5 + 7 * 4096 + 3 * 4096 * 4096).name_indices(), (5, 7));
    assert_eq!(Species(u64::MAX).name_indices(), (4095, 4095));
}

#[test]
fn a_species_is_read_from_its_name() {
    let first = names(&["Ada", "Bo", "Bob", "Cy"]);
    let last = names(&["Ali", "Alison", "Berg"]);
    let read = |name: &str| Species::from_name(name, &first, &last);
    assert_eq!(read("Ada Berg"), Some(Species(0 + 2 * 4)));
    assert_eq!(read("Cy Ali"), Some(Species(3)));
    assert_eq!(read("Bob Berg"), Some(Species(2 + 2 * 4)));
    // the earliest last name that fits counts
    assert_eq!(read("Cy Alison"), Some(Species(3)));
    // the character behind the first name is not looked at, nor what follows the last name
    assert_eq!(read("Bo-Berg"), Some(Species(1 + 2 * 4)));
    assert_eq!(read("Ada Bergson"), Some(Species(0 + 2 * 4)));
    assert_eq!(read("Ada"), None);
    assert_eq!(read("Ada "), None);
    assert_eq!(read("Ada Be"), None);
    assert_eq!(read("Dee Berg"), None);
    assert_eq!(read(""), None);
    assert_eq!(Species::from_name("Ada Berg", &vec![], &last), None);
    assert_eq!(Species::from_name("Ada Berg", &first, &vec![]), None);
    // a reading with an earlier first name comes first
    let first = names(&["B", "Bo"]);
    let last = names(&["o", "x"]);
    assert_eq!(Species::from_name("Bo x", &first, &last), Some(Species(1 + 2)));
    assert_eq!(Species::from_name("Boo", &first, &last), Some(Species(0)));
    assert_eq!(Species::from_name("Bo.o", &first, &last), Some(Species(1)));
    assert_eq!(Species::from_name("B o", &first, &last), Some(Species(0)));
}

#[test]
fn reading_a_name_undoes_the_indices() {
    let first: Vec<String> = (0..20).map(|i| format!("f{:02}", i)).collect();
    let last: Vec<String> = (0..20).map(|i| format!("l{:02}", i)).collect();
    for id in [0u64, 1, 19, 20, 21, 399] {
        let (a, b) = ((id % 20) as usize, (id / 20 % 20) as usize);
        let name = format!("{} {}", first[a], last[b]);
        assert_eq!(Species::from_name(&name, &first, &last), Some(Species(id)));
    }
}

#[test]
fn a_tree_is_made_of_entries_of_different_species() {
    let info = SpeciesInfo {
        round_introduced: 1,
        round_extinct: Some(2),
        parents: None,
        best_score: score(3),
    };
    let entry = |s: u64| Entry { species: Species(s), info };
    let tree = FamilyTree::from_entries(vec![entry(4), entry(2), entry(9)]).unwrap();
    assert_eq!(tree.entries(), &vec![entry(4), entry(2), entry(9)]);
    assert_eq!(tree.info(Species(2)), Some(info));
    assert!(FamilyTree::from_entries(vec![entry(4), entry(2), entry(4)]).is_none());
    assert!(FamilyTree::from_entries(vec![entry(4), entry(4)]).is_none());
    assert!(FamilyTree::from_entries(vec![]).unwrap().entries().is_empty());
}

#[test]
fn the_name_of_a_species() {
    let first: Vec<String> = (0..4096).map(|i| format!("f{}", i)).collect();
    let last: Vec<String> = (0..4096).map(|i| format!("l{}", i)).collect();
    assert_eq!(Species(0).name(&first, &last), "f0 l0");
    assert_eq!(Species(5 + 7 * 4096).name(&first, &last), "f5 l7");
    assert_eq!(Species(u64::MAX).name(&first, &last), "f4095 l4095");
    assert_eq!(
        Species::from_name(&Species(77 + 4096).name(&first, &last), &first, &last),
        Some(Species(77 + 4096))
    );
}
