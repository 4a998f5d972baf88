//! The composition carrier: voices, lengths, annotations, splicing.

use undertone::composition::{Composition, Message};

#[test]
fn total_beats_is_the_longest_voice() {
    let mut c: Composition<Message> = Composition::new();
    assert_eq!(c.total_beats(), 0);
    let first = c.add_voice(vec![(1000, vec![(60, 1)]), (500, vec![])]);
    let second = c.add_voice(vec![(2000, vec![(64, 1)])]);
    assert_eq!(first, 0);
    assert_eq!(second, 1);
    assert_eq!(c.total_beats(), 2000);
    assert!(c.voice(0).is_some());
    assert!(c.voice(2).is_none());
}

#[test]
fn annotations_filter_by_overlap() {
    let mut c: Composition<Message> = Composition::new();
    c.add_annotation(0, 1000, Message::Note(60));
    c.add_annotation(5000, 1000, Message::Note(64));
    c.add_annotation(1500, 100, Message::Note(67));
    let hits = c.annotations(900, 800);
    assert_eq!(hits.len(), 2);
    assert_eq!(hits[0].start, 0);
    assert_eq!(hits[1].start, 1500);
}

#[test]
fn extend_shifts_and_splices() {
    let mut c: Composition<Message> = Composition::new();
    c.add_voice(vec![(1000, vec![(60, 1)])]);
    c.add_annotation(0, 500, Message::Note(60));

    let mut tail: Composition<Message> = Composition::new();
    tail.add_voice(vec![(700, vec![(62, 1)])]);
    tail.add_annotation(100, 200, Message::Note(62));

    c.extend(tail);
    assert_eq!(c.total_beats(), 1700);
    assert_eq!(c.voice(0).unwrap().len(), 2);
    assert_eq!(c.voice(0).unwrap()[1].0, 700);
    let all = c.annotations(0, 10_000);
    assert_eq!(all.len(), 2);
    assert_eq!(all[1].start, 1100);
}
