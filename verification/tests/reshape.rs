use core_temps::input::TemperatureLine;
use core_temps::preprocess::{num_cores, preprocess, CoreData, PreprocessError};

fn line(time_step: u64, readings: Vec<f64>) -> TemperatureLine<f64> {
    TemperatureLine { time_step, readings }
}

#[test]
fn two_lines_two_cores() {
    let input = vec![line(0, vec![50.0, 55.0]), line(1, vec![51.0, 56.0])];
    let out = preprocess(&input).unwrap();
    assert_eq!(
        out,
        vec![
            CoreData { times: vec![0, 1], temps: vec![50.0, 51.0] },
            CoreData { times: vec![0, 1], temps: vec![55.0, 56.0] },
        ]
    );
}

#[test]
fn no_lines_give_no_series() {
    let input: Vec<TemperatureLine<f64>> = Vec::new();
    let out = preprocess(&input);
    assert_eq!(out, Ok(Vec::new()));
}

#[test]
fn extra_value_of_a_later_line_is_dropped() {
    let input = vec![line(0, vec![10.0]), line(1, vec![20.0, 30.0])];
    let out = preprocess(&input).unwrap();
    assert_eq!(out, vec![CoreData { times: vec![0, 1], temps: vec![10.0, 20.0] }]);
}

#[test]
fn narrower_later_line_is_an_error() {
    let input = vec![line(0, vec![10.0, 20.0]), line(1, vec![15.0])];
    let out = preprocess(&input);
    assert_eq!(out, Err(PreprocessError::InconsistentWidth { line: 1, expected: 2, found: 1 }));
}

#[test]
fn earliest_narrow_line_is_named() {
    let input = vec![
        line(0, vec![1.0, 2.0, 3.0]),
        line(30, vec![1.5, 2.5, 3.5, 4.5]),
        line(60, vec![1.0, 2.0]),
        line(90, vec![]),
        line(120, vec![1.0, 2.0, 3.0]),
    ];
    let out = preprocess(&input);
    assert_eq!(out, Err(PreprocessError::InconsistentWidth { line: 2, expected: 3, found: 2 }));
}

#[test]
fn empty_later_line_is_an_error() {
    let input = vec![line(0, vec![40.0]), line(1, vec![])];
    let out = preprocess(&input);
    assert_eq!(out, Err(PreprocessError::InconsistentWidth { line: 1, expected: 1, found: 0 }));
}

#[test]
fn empty_first_line_fixes_zero_cores() {
    let input = vec![line(0, vec![]), line(1, vec![20.0, 30.0]), line(2, vec![])];
    let out = preprocess(&input);
    assert_eq!(out, Ok(Vec::new()));
}

#[test]
fn single_line_gives_one_sample_per_core() {
    let input = vec![line(7, vec![61.0, 63.0, 50.0, 58.0])];
    let out = preprocess(&input).unwrap();
    assert_eq!(
        out,
        vec![
            CoreData { times: vec![7], temps: vec![61.0] },
            CoreData { times: vec![7], temps: vec![63.0] },
            CoreData { times: vec![7], temps: vec![50.0] },
            CoreData { times: vec![7], temps: vec![58.0] },
        ]
    );
}

#[test]
fn uniform_width_gives_that_many_series() {
    for k in 0..6usize {
        let input: Vec<TemperatureLine<f64>> = (0..4u64)
            .map(|t| TemperatureLine {
                time_step: t * 30,
                readings: (0..k).map(|c| 40.0 + c as f64 + t as f64 / 2.0).collect(),
            })
            .collect();
        let out = preprocess(&input).unwrap();
        assert_eq!(out.len(), k);
        assert_eq!(num_cores(&input), k);
    }
}

#[test]
fn every_sample_sits_at_its_reading_index() {
    let input = vec![
        line(0, vec![61.0, 63.0, 50.0, 58.0]),
        line(30, vec![80.0, 81.0, 68.0, 77.0]),
        line(60, vec![62.0, 63.0, 52.0, 60.0]),
        line(90, vec![83.0, 82.0, 70.0, 79.0, 99.0]),
        line(120, vec![68.0, 69.0, 58.0, 65.0]),
    ];
    let out = preprocess(&input).unwrap();
    assert_eq!(out.len(), 4);
    for c in 0..4 {
        assert_eq!(out[c].times.len(), input.len());
        assert_eq!(out[c].temps.len(), input.len());
        for i in 0..input.len() {
            assert_eq!(out[c].times[i], input[i].time_step);
            assert_eq!(out[c].temps[i], input[i].readings[c]);
        }
    }
}

#[test]
fn time_steps_are_taken_over_as_they_are() {
    let input = vec![line(u64::MAX, vec![1.0]), line(0, vec![2.0]), line(5, vec![3.0])];
    let out = preprocess(&input).unwrap();
    assert_eq!(out, vec![CoreData { times: vec![u64::MAX, 0, 5], temps: vec![1.0, 2.0, 3.0] }]);
}

#[test]
fn a_further_line_extends_every_series_at_its_end() {
    let r1 = line(0, vec![50.0, 55.0]);
    let r2 = line(1, vec![51.0, 56.0]);
    let r3 = line(2, vec![52.0, 57.0]);
    let two = preprocess(&[r1.clone(), r2.clone()]).unwrap();
    let three = preprocess(&[r1, r2, r3]).unwrap();
    assert_eq!(three.len(), two.len());
    for c in 0..two.len() {
        assert_eq!(&three[c].times[..2], &two[c].times[..]);
        assert_eq!(&three[c].temps[..2], &two[c].temps[..]);
    }
    assert_eq!(three[0], CoreData { times: vec![0, 1, 2], temps: vec![50.0, 51.0, 52.0] });
    assert_eq!(three[1], CoreData { times: vec![0, 1, 2], temps: vec![55.0, 56.0, 57.0] });
}

#[test]
fn two_calls_on_one_input_agree() {
    let input = vec![line(0, vec![50.0, 55.0]), line(1, vec![51.0, 56.0])];
    assert_eq!(preprocess(&input), preprocess(&input));
    let bad = vec![line(0, vec![50.0, 55.0]), line(1, vec![51.0])];
    assert_eq!(preprocess(&bad), preprocess(&bad));
}

#[test]
fn input_is_left_as_it_was() {
    let input = vec![line(0, vec![10.0]), line(1, vec![20.0, 30.0])];
    let copy = input.clone();
    let _ = preprocess(&input);
    assert_eq!(input, copy);
}

#[test]
fn values_of_any_copy_type_are_moved_unchanged() {
    let input = vec![
        TemperatureLine { time_step: 3, readings: vec![-5i32, 7] },
        TemperatureLine { time_step: 4, readings: vec![i32::MIN, i32::MAX] },
    ];
    let out = preprocess(&input).unwrap();
    assert_eq!(
        out,
        vec![
            CoreData { times: vec![3, 4], temps: vec![-5, i32::MIN] },
            CoreData { times: vec![3, 4], temps: vec![7, i32::MAX] },
        ]
    );
}

#[test]
fn num_cores_is_the_width_of_the_first_line() {
    let none: Vec<TemperatureLine<f64>> = Vec::new();
    assert_eq!(num_cores(&none), 0);
    assert_eq!(num_cores(&[line(0, vec![1.0, 2.0, 3.0]), line(1, vec![1.0])]), 3);
    assert_eq!(num_cores(&[line(0, vec![]), line(1, vec![1.0])]), 0);
}

#[test]
fn new_series_is_empty_and_push_appends() {
    let mut series: CoreData<f64> = CoreData::new();
    assert!(series.times.is_empty());
    assert!(series.temps.is_empty());
    series.push(0, 50.0);
    series.push(30, 51.5);
    assert_eq!(series, CoreData { times: vec![0, 30], temps: vec![50.0, 51.5] });
}
