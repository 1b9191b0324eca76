use quic_send::progress::{Bar, CliProgressBars};

#[test]
fn bars_fill_in_order() {
    let rows = vec![("a".to_string(), 0, 10), ("b".to_string(), 5, 10), ("c".to_string(), 0, 4)];
    let mut bars = CliProgressBars::new(&rows);
    assert_eq!(
        bars.bars(),
        vec![
            Bar { position: 0, length: 10 },
            Bar { position: 5, length: 10 },
            Bar { position: 0, length: 4 },
        ]
    );
    assert_eq!(bars.total(), Some(Bar { position: 5, length: 24 }));
    bars.update(12);
    assert_eq!(
        bars.bars(),
        vec![
            Bar { position: 10, length: 10 },
            Bar { position: 7, length: 10 },
            Bar { position: 0, length: 4 },
        ]
    );
    assert_eq!(bars.total(), Some(Bar { position: 17, length: 24 }));
    bars.update(0);
    assert_eq!(bars.total(), Some(Bar { position: 17, length: 24 }));
    bars.update(100);
    assert_eq!(
        bars.bars(),
        vec![
            Bar { position: 10, length: 10 },
            Bar { position: 10, length: 10 },
            Bar { position: 4, length: 4 },
        ]
    );
}

#[test]
fn single_entry_has_no_total() {
    let rows = vec![("hello.txt".to_string(), 0, 13)];
    let mut bars = CliProgressBars::new(&rows);
    assert_eq!(bars.total(), None);
    bars.update(13);
    assert_eq!(bars.bars(), vec![Bar { position: 13, length: 13 }]);
}

#[test]
fn overfull_bar_takes_nothing() {
    let rows = vec![("a".to_string(), 12, 10), ("b".to_string(), 0, 10)];
    let mut bars = CliProgressBars::new(&rows);
    bars.update(3);
    assert_eq!(bars.bars(), vec![Bar { position: 12, length: 10 }, Bar { position: 3, length: 10 }]);
}
