use camden::lee::string_reader::StringReader;

#[test]
fn test_reader() {
    let mut s = StringReader::new("hello");
    assert!(s.peek() == Some('h'));
    assert!(s.peek() == Some('h'));
    assert!(s.next() == Some('h'));
    assert!(s.peek() == Some('e'));
    assert!(s.next() == Some('e'));
    assert!(s.next() == Some('l'));
    assert!(s.next() == Some('l'));
    assert!(s.next() == Some('o'));
    assert!(s.peek() == None);
    assert!(s.next() == None);
    assert!(s.next() == None);
}

#[test]
fn test_reader_position_tracks_lines() {
    let mut s = StringReader::new("a\nb");
    assert_eq!(s.position(), (1, 1));
    s.advance();
    assert_eq!(s.position(), (1, 2));
    s.advance();
    assert_eq!(s.position(), (2, 1));
}
