use expurgate::name_list::NameList;
use expurgate::process_list::ProcessList;

#[test]
fn new_list_is_empty() {
    let list = NameList::new();
    assert_eq!(list.len(), 0);
    assert!(!list.contains("app.exe"));
    assert!(list.to_vec().is_empty());
}

#[test]
fn blank_input_is_refused() {
    let mut list = NameList::new();
    assert!(!list.add("  "));
    assert!(!list.add(""));
    assert!(!list.add("\t\n "));
    assert_eq!(list.len(), 0);
    assert!(list.add("x.exe"));
    assert!(!list.add("   "));
    assert_eq!(list.len(), 1);
    assert_eq!(list.to_vec(), vec!["x.exe".to_string()]);
}

#[test]
fn adding_twice_keeps_the_size() {
    let mut list = NameList::new();
    assert!(list.add("x.exe"));
    assert_eq!(list.len(), 1);
    assert!(list.add("x.exe"));
    assert_eq!(list.len(), 1);
    assert!(list.contains("x.exe"));
}

#[test]
fn input_is_trimmed_before_it_is_stored() {
    let mut list = NameList::new();
    assert!(list.add("  x.exe "));
    assert!(list.contains("x.exe"));
    assert!(!list.contains("  x.exe "));
    assert!(list.add("x.exe"));
    assert_eq!(list.len(), 1);
    assert_eq!(list.name_at(0), "x.exe");
}

#[test]
fn stored_name_keeps_its_extension_and_case() {
    let mut list = NameList::new();
    list.add("App.exe");
    assert!(list.contains("App.exe"));
    assert!(!list.contains("app.exe"));
    assert!(!list.contains("App"));
}

#[test]
fn insert_takes_the_name_as_given() {
    let mut list = NameList::new();
    assert!(list.insert(" x.exe".to_string()));
    assert!(!list.insert(" x.exe".to_string()));
    assert!(list.contains(" x.exe"));
    assert!(!list.contains("x.exe"));
    assert_eq!(list.len(), 1);
}

#[test]
fn remove_takes_out_exactly_one_name() {
    let mut list = NameList::new();
    list.add("a.exe");
    list.add("b.exe");
    list.add("c.exe");
    list.remove("b.exe");
    assert_eq!(list.len(), 2);
    assert!(list.contains("a.exe"));
    assert!(!list.contains("b.exe"));
    assert!(list.contains("c.exe"));
}

#[test]
fn remove_of_absent_name_changes_nothing() {
    let mut list = NameList::new();
    list.add("a.exe");
    list.remove("z.exe");
    list.remove("");
    assert_eq!(list.len(), 1);
    assert!(list.contains("a.exe"));
    let mut empty = NameList::new();
    empty.remove("a.exe");
    assert_eq!(empty.len(), 0);
}

#[test]
fn from_names_drops_repeats() {
    let names = vec!["b.exe".to_string(), "a.exe".to_string(), "b.exe".to_string()];
    let list = NameList::from_names(&names);
    assert_eq!(list.len(), 2);
    assert!(list.contains("a.exe"));
    assert!(list.contains("b.exe"));
    let mut out = list.to_vec();
    out.sort();
    assert_eq!(out, vec!["a.exe".to_string(), "b.exe".to_string()]);
}

#[test]
fn process_list_keeps_the_last_pid_of_a_name() {
    let mut list = ProcessList::new();
    assert_eq!(list.len(), 0);
    list.insert("app.exe".to_string(), 100);
    list.insert("other.exe".to_string(), 200);
    list.insert("app.exe".to_string(), 300);
    assert_eq!(list.len(), 2);
    assert_eq!(list.get("app.exe"), Some(300));
    assert_eq!(list.get("other.exe"), Some(200));
    assert_eq!(list.get("none.exe"), None);
    assert_eq!(list.name_at(0), "app.exe");
    assert_eq!(list.pid_at(0), 300);
    assert_eq!(list.name_at(1), "other.exe");
    assert_eq!(list.pid_at(1), 200);
}
