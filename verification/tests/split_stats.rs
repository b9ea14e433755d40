//! Exercises the load-statistics arithmetic: prefix sums and range
//! sampling.

use libra_kv::kv::KeyRange;
use libra_kv::split::{prefix_sum, Recorder, Sample};

#[test]
fn test_pre_sum() {
    let v: Vec<usize> = vec![1, 2, 3, 4, 5, 6, 7, 8, 9];
    let expect: Vec<usize> = vec![1, 3, 6, 10, 15, 21, 28, 36, 45];
    let pre = prefix_sum(&v);
    for i in 0..v.len() {
        assert_eq!(expect[i], pre[i]);
    }
}

enum Position {
    Left,
    Right,
    Contained,
}

fn counter_of(sample: &Sample, pos: &Position) -> i32 {
    match pos {
        Position::Left => sample.left,
        Position::Right => sample.right,
        Position::Contained => sample.contained,
    }
}

struct SampleCase {
    key: Vec<u8>,
}

impl SampleCase {
    fn sample_key(&self, start_key: &[u8], end_key: &[u8], pos: Position) {
        let mut samples = vec![Sample::new(&self.key)];
        let mut key_range = KeyRange::default();
        key_range.set_start_key(start_key.to_vec());
        key_range.set_end_key(end_key.to_vec());
        Recorder::sample(&mut samples, &key_range);
        assert_eq!(
            counter_of(&samples[0], &pos),
            1,
            "start_key is {:?}, end_key is {:?}",
            String::from_utf8(Vec::from(start_key)).unwrap(),
            String::from_utf8(Vec::from(end_key)).unwrap()
        );
    }
}

#[test]
fn test_sample() {
    let sc = SampleCase { key: vec![b'c'] };

    // limit scan
    sc.sample_key(b"a", b"b", Position::Left);
    sc.sample_key(b"a", b"c", Position::Left);
    sc.sample_key(b"a", b"d", Position::Contained);
    sc.sample_key(b"c", b"d", Position::Right);
    sc.sample_key(b"d", b"e", Position::Right);

    // point get
    sc.sample_key(b"a", b"a", Position::Left);
    sc.sample_key(b"c", b"c", Position::Right);
    sc.sample_key(b"d", b"d", Position::Right);

    // unlimited scan
    sc.sample_key(b"", b"", Position::Contained);
    sc.sample_key(b"a", b"", Position::Contained);
    sc.sample_key(b"c", b"", Position::Right);
    sc.sample_key(b"d", b"", Position::Right);
    sc.sample_key(b"", b"a", Position::Left);
    sc.sample_key(b"", b"c", Position::Left);
    sc.sample_key(b"", b"d", Position::Contained);
}
