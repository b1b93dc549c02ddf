use ruster::utils::{element_at, random_element};

fn pool(texts: &[&str]) -> Vec<String> {
    texts.iter().map(|t| t.to_string()).collect()
}

#[test]
fn empty_pool_gives_nothing() {
    assert_eq!(random_element(vec![]), None);
    assert_eq!(element_at(&vec![], 0), None);
    assert_eq!(element_at(&vec![], usize::MAX), None);
}

#[test]
fn random_element_is_a_member_of_the_pool() {
    let agents = pool(&["a", "b", "c"]);
    for _ in 0..200 {
        let chosen = random_element(agents.clone());
        assert!(matches!(&chosen, Some(text) if agents.contains(text)));
    }
    assert_eq!(random_element(pool(&["only"])), Some("only".to_string()));
}

#[test]
fn random_element_reaches_more_than_one_member() {
    let agents = pool(&["a", "b"]);
    let mut seen_a = false;
    let mut seen_b = false;
    for _ in 0..2000 {
        match random_element(agents.clone()) {
            Some(text) if text == "a" => seen_a = true,
            Some(text) if text == "b" => seen_b = true,
            _ => panic!("not a member of the pool"),
        }
    }
    assert!(seen_a && seen_b);
}

#[test]
fn draw_counts_round_the_pool() {
    let agents = pool(&["a", "b", "c"]);
    assert_eq!(element_at(&agents, 0), Some("a".to_string()));
    assert_eq!(element_at(&agents, 1), Some("b".to_string()));
    assert_eq!(element_at(&agents, 2), Some("c".to_string()));
    assert_eq!(element_at(&agents, 3), Some("a".to_string()));
    assert_eq!(element_at(&agents, 10), Some("b".to_string()));
    assert_eq!(
        element_at(&agents, usize::MAX),
        Some(agents[usize::MAX % 3].clone())
    );
}
