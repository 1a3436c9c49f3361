use witcher_save::tracker::{Quest, TrackerInfo};

fn quest(guid: &str, status: &str) -> Quest {
    Quest { guid: guid.to_string(), status: status.to_string() }
}

#[test]
fn done_quests_are_counted_once_each() {
    let info = TrackerInfo {
        quests: vec![
            quest("ab12-cd", "Success"),
            quest("AB12-CD", "Success"),
            quest("ef34", "Success"),
            quest("gh56", "Failed"),
            quest("zz99", "Success"),
        ],
        map_pin_tag: vec![],
    };
    let known = vec!["AB12-CD".to_string(), "ef34".to_string(), "gh56".to_string()];
    assert_eq!(info.count_done_quests(&known), 2);
    assert_eq!(info.count_done_quests(&vec![]), 0);
}

#[test]
fn status_must_be_exactly_success() {
    let info = TrackerInfo {
        quests: vec![quest("a", "success"), quest("b", "Success ")],
        map_pin_tag: vec!["pin".to_string()],
    };
    let known = vec!["A".to_string(), "B".to_string()];
    assert_eq!(info.count_done_quests(&known), 0);
    assert_eq!(info.count_done_pins(), 0);
}
