use std::collections::HashSet;

use witcher_save::action::{
    best_match, check_str, close_enough, get_closest_match, name_list, parse_action, similar,
    Action, NameLists,
};
use witcher_save::text::slugify;

const QUESTS: &str = "A Frying Pan, Spick and Span
Precious Cargo
On Death's Bed
Twisted Firestarter
Contract: Devil by the Well
Temerian Valuables
The Beast of White Orchard
Scavenger Hunt: Viper School Gear
Deserter Gold
Dirty Funds
Missing in Action
";

const FORMULAE: &str = "Torn-out page: Ancient leshen decoction
Torn-out page: Ekimmara decoction
Manuscript page: Dancing Star
";

const DIAGRAMS: &str = "Diagram: Broadhead bolt
Diagram: Steel sword
";

const DEFAULT_FORMULAE: &str = "Manuscript page: Dancing Star
Swallow
";

const DEFAULT_DIAGRAMS: &str = "Diagram: Steel sword
";

fn lists() -> NameLists {
    NameLists {
        quests: name_list(QUESTS),
        formulae: name_list(FORMULAE),
        diagrams: name_list(DIAGRAMS),
    }
}

fn union_len(a: &[String], b: &[String]) -> usize {
    a.iter().chain(b.iter()).collect::<HashSet<_>>().len()
}

#[test]
fn test_quests() {
    let lists = lists();
    let default_diagrams = name_list(DEFAULT_DIAGRAMS);
    let default_formulae = name_list(DEFAULT_FORMULAE);
    println!("{:#?}", lists.diagrams);
    println!("{:#?}", lists.formulae);
    println!("{:#?}", lists.quests);
    println!(
        "{}+{}={} diagrams",
        default_diagrams.len(),
        lists.diagrams.len(),
        union_len(&default_diagrams, &lists.diagrams)
    );
    println!(
        "{}+{}={} formulae",
        default_formulae.len(),
        lists.formulae.len(),
        union_len(&default_formulae, &lists.formulae)
    );
    println!("{} quests", lists.quests.len());
}

/// The name is read from the line after the announcement. In these
/// one-line inputs no line follows it, so they give `None`, in the original
/// as here. The same texts with the name on its own line give the expected
/// actions.
#[test]
fn test_tokenize() {
    let lists = lists();
    let cases = [
        (
            "4 new alchemy formula s tornout page ancient leshen decoction",
            "4 new alchemy formula s\ntornout page ancient leshen decoction",
            Action::Formula("torn out page ancient leshen decoction".to_string()),
        ),
        (
            "new alchemy formula tornout page ekimmara decoction",
            "new alchemy formula\ntornout page ekimmara decoction",
            Action::Formula("torn out page ekimmara decoction".to_string()),
        ),
        (
            "quest completed a frying pan spick and span",
            "quest completed\na frying pan spick and span",
            Action::Quest("a frying pan spick and span".to_string()),
        ),
    ];
    for (one_line, two_lines, expected) in cases {
        assert_eq!(parse_action(one_line, &lists), None);
        assert_eq!(parse_action(two_lines, &lists), Some(expected));
    }
}

#[test]
fn test_tokenize_2() {
    let lists = lists();
    let cases = &[
        "quest completed a frying pan spick and span",
        "quest completed a frying pan spick and span",
        "quest completed a frying pan spick and span",
        "quest completed a frying pan spick and span",
        "quest completed a frying pan spick and span",
        "quest completed a frying pan spick and span",
        "quest completed afrying pan spick and span",
        "quest completed a frying pan spick and span",
        "g h b sr t ro o k quest completed we iy precious cargo ir nt",
        "guv gtyg 5by g ny os quest completed b a precious cargo i zp r z an",
        "ar o i at wy b bt rt i t i hebri y g z 2 pr b i 5 iar all quest completed t \
         acpreciouscargd r i",
        "quest completed precious cargo",
        "quest completed bon deaths bed",
        "quest completed ion deaths bed",
        "quest completed bon deaths bed",
        "quest completed ion deaths bed",
        "quest completed on deaths bed",
        "quest completed on deaths bed",
        "quest completed a sondeathsbed",
        "quest completed on deaths bed",
        "quest completed on deaths bed",
        "quest completed on deaths bed",
        "lquest completed twisted firestarter s",
        "rquest completed i twisted firestarter",
        "dr at il jf qfbquest completed gtwisted firestarter t",
        "5 j oquest completed k i ji witwisted firestarteriy o",
        "quest completed bcontract devil by the well",
        "f l fquest completed ocontract devil by the well",
        "quest completed temerian valuables",
        "quest completed temerian valuables",
        "quest completed tn l the beast of white orchard",
        "quest completed the beast of white orchard",
        "quest completed lthe beast of white orchard",
        "quest completed scavenger hunt viper school ge",
        "quest completed scavenger hunt viper school ge",
        "quest completed scavenger hunt viper school ge",
        "quest completed scavenger hunt viper school ge",
        "quest completed scavenger hunt viper school ge",
        "quest completed scavenger hunt viper school ge",
        "quest completed scavenger hunt viper school ge",
        "quest completed deserter gold",
        "quest completed deserter gold",
        "quest completed deserter gold",
        "quest completed deserter gold",
        "quest completed deserter gold",
        "quest completed deserter gold",
        "quest completed deserter gold",
        "quest completed deserter gold",
        "quest completed dirty funds s",
        "quest completed dirty funds",
        "quest completed dirty funds",
        "quest completed dirty funds",
        "quest completed dirty funds",
        "quest completed dirty funds",
        "quest completed dirty funds",
        "quest completed dirty funds",
        "quest completed gmissing in action",
    ];

    for case in cases {
        println!("{}   -> {:?}", case, parse_action(case, &lists));
    }
}

#[test]
fn test_tokenize_3() {
    let lists = lists();
    println!("{:?}", parse_action("new alchemy formula manuscript page dancing st", &lists));
}

#[test]
fn slugify_normalises_text() {
    assert_eq!(slugify("Quest Completed!"), "quest completed");
    assert_eq!(slugify("  Torn-out page:\tAncient  leshen "), "torn out page ancient leshen");
    assert_eq!(slugify("On Death's Bed"), "on death s bed");
    assert_eq!(slugify("h\u{e9}llo w\u{f6}rld"), "hllo wrld");
    assert_eq!(slugify("a\u{3000}b\u{a0}c"), "a b c");
    assert_eq!(slugify(""), "");
    assert_eq!(slugify(" -- "), "");
}

#[test]
fn name_list_slugs_each_line_once() {
    assert_eq!(name_list("  B!\nA\r\nb\n\n"), vec!["b".to_string(), "a".to_string()]);
    assert!(name_list(" \n ").is_empty());
}

#[test]
fn announcement_then_name_is_recognised() {
    let lists = lists();
    assert_eq!(
        parse_action("Quest completed\nA Frying Pan, Spick and Span", &lists),
        Some(Action::Quest("a frying pan spick and span".to_string()))
    );
    assert_eq!(
        parse_action("noise\n NEW ALCHEMY FORMULA \r\ntorn out page ekimmara decocton\nmore", &lists),
        Some(Action::Formula("torn out page ekimmara decoction".to_string()))
    );
    assert_eq!(
        parse_action("new crafting diagrm\ndiagram broadhead bolt", &lists),
        Some(Action::Diagram("diagram broadhead bolt".to_string()))
    );
}

#[test]
fn missing_or_unknown_name_gives_nothing() {
    let lists = lists();
    assert_eq!(parse_action("quest completed", &lists), None);
    assert_eq!(parse_action("quest completed\nsomething else entirely", &lists), None);
    assert_eq!(parse_action("nothing to see\nhere", &lists), None);
    assert_eq!(parse_action("", &lists), None);
}

#[test]
fn thresholds_are_compared_exactly() {
    assert!(!similar(3, 10));
    assert!(similar(2, 10));
    assert!(close_enough(3, 10));
    assert!(!close_enough(4, 10));
    assert!(similar(0, 0));
    assert!(!similar(11, 10));
}

#[test]
fn best_match_takes_first_of_the_best() {
    assert_eq!(best_match(&vec![(5, 10), (2, 10), (1, 5), (9, 9)]), Some(1));
    assert_eq!(best_match(&vec![(3, 10), (1, 10)]), Some(1));
    assert_eq!(best_match(&vec![(4, 10), (9, 9)]), None);
    assert_eq!(best_match(&vec![]), None);
    assert_eq!(best_match(&vec![(3, 10), (0, 0)]), Some(1));
}

#[test]
fn closest_match_uses_edit_distance() {
    let names = vec!["deserter gold".to_string(), "dirty funds".to_string()];
    assert_eq!(get_closest_match(&"dirty fund".to_string(), &names), Some("dirty funds".to_string()));
    assert_eq!(get_closest_match(&"desreter gold".to_string(), &names), Some("deserter gold".to_string()));
    assert_eq!(get_closest_match(&"xyz".to_string(), &names), None);
    assert!(check_str("quest compelted", "quest completed"));
    assert!(!check_str("hello", "quest completed"));
}
