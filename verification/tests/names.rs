use lrlex::NameSet;

fn listed(set: &NameSet) -> Vec<String> {
    let mut out = Vec::new();
    let mut i = 0;
    while let Some(name) = set.get(i) {
        out.push(name.clone());
        i += 1;
    }
    out
}

#[test]
fn new_name_set_is_empty() {
    let set = NameSet::new();
    assert_eq!(set.len(), 0);
    assert!(set.is_empty());
    assert!(!set.contains("a"));
    assert!(set.get(0).is_none());
}

#[test]
fn insert_says_whether_the_name_was_new() {
    let mut set = NameSet::new();
    assert!(set.insert("num".to_string()));
    assert!(set.insert("plus".to_string()));
    assert!(!set.insert("num".to_string()));
    assert_eq!(set.len(), 2);
    assert!(!set.is_empty());
    assert!(set.contains("num"));
    assert!(set.contains("plus"));
    assert!(!set.contains("NUM"));
    assert!(!set.contains("minus"));
}

#[test]
fn names_are_listed_in_name_order() {
    let mut set = NameSet::new();
    for name in ["plus", "num", "minus", "NUM", "", "numb"].iter() {
        set.insert(name.to_string());
    }
    assert_eq!(listed(&set), vec!["", "NUM", "minus", "num", "numb", "plus"]);
    assert_eq!(set.get(6), None);
}

#[test]
fn the_order_of_insertion_does_not_show() {
    let names = ["d", "a", "c", "b", "e"];
    let mut forward = NameSet::new();
    for name in names.iter() {
        forward.insert(name.to_string());
    }
    let mut backward = NameSet::new();
    for name in names.iter().rev() {
        backward.insert(name.to_string());
    }
    assert_eq!(listed(&forward), listed(&backward));
    assert_eq!(listed(&forward), vec!["a", "b", "c", "d", "e"]);
}
