use faux_unix_system::iter::ExtendableIterator;

#[test]
fn prepend_iterator() {
    let text = "Hi";
    let mut it = ExtendableIterator::new(text.chars().collect());
    it.prepend("Ho".chars().collect());
    assert_eq!(it.next().unwrap(), 'H');
    assert_eq!(it.next().unwrap(), 'o');
    assert_eq!(it.next().unwrap(), 'H');
    assert_eq!(it.next().unwrap(), 'i');
    assert_eq!(it.next(), None);
}

#[test]
fn extend_iterator() {
    let text = "Hi";
    let mut it = ExtendableIterator::new(text.chars().collect());
    it.extend("Ho".chars().collect());
    assert_eq!(it.next().unwrap(), 'H');
    assert_eq!(it.next().unwrap(), 'i');
    assert_eq!(it.next().unwrap(), 'H');
    assert_eq!(it.next().unwrap(), 'o');
    assert_eq!(it.next(), None);
}

#[test]
fn empty_iterator_reports_empty() {
    let mut it: ExtendableIterator<u8> = ExtendableIterator::new(Vec::new());
    assert!(it.is_empty());
    it.prepend(vec![7]);
    assert!(!it.is_empty());
    assert_eq!(it.next(), Some(7));
    assert!(it.is_empty());
}
