use synth::wave::SineGen;

#[test]
fn frames_wrap_around() {
    let mut g = SineGen::from_samples(vec![1, 2, 3]);
    assert_eq!(g.get_frames(2), Some(vec![1, 2]));
    assert_eq!(g.get_frames(4), Some(vec![3, 1, 2, 3]));
    assert_eq!(g.get_frames(1), Some(vec![1]));
}

#[test]
fn empty_table_gives_no_frames() {
    let mut g = SineGen::from_samples(vec![]);
    assert_eq!(g.get_frames(3), None);
    assert_eq!(g.get_frames(0), Some(vec![]));
}

#[test]
fn concat_appends() {
    let mut a = SineGen::from_samples(vec![1, 2]);
    let b = SineGen::from_samples(vec![7, 8, 9]);
    a.concat(&b);
    assert_eq!(a.get_full_cycle(), vec![1, 2, 7, 8, 9]);
    assert_eq!(a.len(), 5);
}
