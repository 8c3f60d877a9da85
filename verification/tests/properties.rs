use quickcheck::{quickcheck, Arbitrary, Gen};
use ringbuf::RingBuf;

/// A ring buffer of the given capacity whose first element lies `lo` slots
/// into the block, holding `items`.
fn create_ringbuf_with_offset(items: &[i64], capacity: usize, lo: usize) -> RingBuf<i64> {
    let mut ringbuf = RingBuf::with_capacity(capacity);
    let turns = lo % ringbuf.capacity();
    for _ in 0..turns {
        ringbuf.push_back(0);
        ringbuf.pop_front();
    }
    for &i in items.iter() {
        ringbuf.push_back(i);
    }
    ringbuf
}

/// A ring buffer with an arbitrary content, capacity and offset.
struct Ring(RingBuf<i64>);

impl Clone for Ring {
    fn clone(&self) -> Ring {
        Ring(self.0.clone())
    }
}

impl std::fmt::Debug for Ring {
    fn fmt(&self, f: &mut std::fmt::Formatter<'_>) -> std::fmt::Result {
        f.write_str(&format!("{:?}", self.0))
    }
}

impl Arbitrary for Ring {
    fn arbitrary(g: &mut Gen) -> Ring {
        let vec: Vec<i64> = Arbitrary::arbitrary(g);
        let cap = vec.capacity();
        let lo = if cap == 0 { 0 } else { usize::arbitrary(g) % cap };
        Ring(create_ringbuf_with_offset(&vec, cap, lo))
    }

    fn shrink(&self) -> Box<dyn Iterator<Item = Ring>> {
        let cap = self.0.capacity();
        let mut xs: Vec<Ring> = vec![];
        let mut lo = cap / 2;
        while lo > 0 {
            for x in self.0.clone().into_vec().shrink() {
                xs.push(Ring(create_ringbuf_with_offset(&x, cap, lo)));
            }
            lo = lo / 2;
        }
        for x in self.0.clone().into_vec().shrink() {
            xs.push(Ring(RingBuf::from_vec(x)));
        }
        Box::new(xs.into_iter())
    }
}

/// The elements by reference, front to back.
fn refs(rb: &RingBuf<i64>) -> Vec<&i64> {
    let mut items = rb.iter();
    let mut out = Vec::new();
    while let Some(x) = items.next() {
        out.push(x);
    }
    out
}

#[test]
fn test_deque_macro() {
    let mut deque = RingBuf::new();
    deque.push_back(1i64);
    deque.push_back(5);
    deque.push_back(9);
    assert_eq!(Some(1), deque.pop_front());
    assert_eq!(Some(5), deque.pop_front());
    assert_eq!(Some(9), deque.pop_front());
    assert_eq!(None, deque.pop_front());
}

#[test]
fn check_from_into_vec() {
    fn prop(items: Vec<i64>) -> bool {
        items == RingBuf::from_vec(items.clone()).into_vec()
    }

    quickcheck(prop as fn(Vec<i64>) -> bool);
}

#[test]
fn check_clone() {
    fn prop(items: Vec<i64>) -> bool {
        let rb = RingBuf::from_vec(items);

        rb.eq(&rb.clone())
    }

    quickcheck(prop as fn(Vec<i64>) -> bool);
}

#[test]
fn check_push_back() {
    fn prop(items: Vec<i64>, cap: u16) -> bool {
        let mut rb = RingBuf::with_capacity(cap as usize);

        for &i in items.iter() {
            rb.push_back(i);
        }

        RingBuf::from_vec(items).eq(&rb)
    }

    quickcheck(prop as fn(Vec<i64>, u16) -> bool);
}

#[test]
fn check_push_front() {
    fn prop(mut items: Vec<i64>, cap: u16) -> bool {
        let mut rb = RingBuf::with_capacity(cap as usize);

        for &i in items.iter() {
            rb.push_front(i);
        }
        items.reverse();

        RingBuf::from_vec(items).eq(&rb)
    }

    quickcheck(prop as fn(Vec<i64>, u16) -> bool);
}

#[test]
fn check_push_mixed() {
    fn prop(items: Vec<(bool, i64)>, cap: u16) -> bool {
        let mut rb = RingBuf::with_capacity(cap as usize);

        let mut fronts = Vec::new();
        let mut backs = Vec::new();

        for &(is_front, i) in items.iter() {
            if is_front {
                fronts.push(i);
                rb.push_front(i);
            } else {
                backs.push(i);
                rb.push_back(i);
            }
        }
        fronts.reverse();
        fronts.extend_from_slice(&backs);

        RingBuf::from_vec(fronts).eq(&rb)
    }

    quickcheck(prop as fn(Vec<(bool, i64)>, u16) -> bool);
}

#[test]
fn check_pop_front() {
    fn prop(items: Vec<i64>) -> bool {
        let mut rb = RingBuf::from_vec(items.clone());
        items.iter().all(|i| i == rb.front().unwrap() && i == &rb.pop_front().unwrap())
    }

    quickcheck(prop as fn(Vec<i64>) -> bool);
}

#[test]
fn check_pop_back() {
    fn prop(mut items: Vec<i64>) -> bool {
        let mut rb = RingBuf::from_vec(items.clone());
        items.reverse();
        items.iter().all(|i| i == rb.back().unwrap() && i == &rb.pop_back().unwrap())
    }

    quickcheck(prop as fn(Vec<i64>) -> bool);
}

#[test]
fn check_vec_bijection() {
    fn prop(rb: Ring) -> bool {
        rb.0.eq(&RingBuf::from_vec(rb.0.clone().into_vec()))
    }

    quickcheck(prop as fn(Ring) -> bool);
}

#[test]
fn check_iter_bijection() {
    fn prop(rb: Ring) -> bool {
        let mut items = rb.0.clone().move_iter();
        rb.0.eq(&RingBuf::from_iter(std::iter::from_fn(move || items.next())))
    }

    quickcheck(prop as fn(Ring) -> bool);
}

#[test]
fn check_clone_equivalence() {
    fn prop(rb: Ring) -> bool {
        rb.0.eq(&rb.0.clone())
    }

    quickcheck(prop as fn(Ring) -> bool);
}

#[test]
fn test_shrink_to_fit_equivalence() {
    fn prop(rb: Ring) -> bool {
        let mut stf = rb.0.clone();
        stf.shrink_to_fit();
        rb.0.eq(&stf)
    }

    quickcheck(prop as fn(Ring) -> bool);
}

#[test]
fn check_back_push_pop_get() {
    fn prop(rb: Ring, item: i64) -> bool {
        let mut copy = rb.0.clone();
        copy.push_back(item);

        copy.back() == Some(&item) && copy.pop_back() == Some(item) && copy.eq(&rb.0)
    }
    quickcheck(prop as fn(Ring, i64) -> bool);
}

#[test]
fn check_front_push_pop_get() {
    fn prop(rb: Ring, item: i64) -> bool {
        let mut copy = rb.0.clone();
        copy.push_front(item);

        copy.front() == Some(&item) && copy.pop_front() == Some(item) && copy.eq(&rb.0)
    }
    quickcheck(prop as fn(Ring, i64) -> bool);
}

#[test]
fn check_get() {
    fn prop(rb: Ring) -> bool {
        let vec = rb.0.clone().into_vec();
        rb.0.len() == vec.len() && refs(&rb.0).into_iter().zip(vec.iter()).all(|(a, b)| a == b)
    }
    quickcheck(prop as fn(Ring) -> bool);
}

#[test]
fn check_cmp() {
    fn prop(rb1: Ring, rb2: Ring) -> bool {
        let vec1 = rb1.0.clone().into_vec();
        let vec2 = rb2.0.clone().into_vec();

        rb1.0.cmp(&rb2.0) == vec1.cmp(&vec2)
    }
    quickcheck(prop as fn(Ring, Ring) -> bool);
}

#[test]
fn check_extendable() {
    fn prop(vec: Vec<i64>) -> bool {
        let mut rb = RingBuf::new();
        rb.extend(vec.clone().into_iter());
        vec == rb.into_vec()
    }
    quickcheck(prop as fn(Vec<i64>) -> bool);
}

#[test]
fn check_iter() {
    fn prop(rb: Ring) -> bool {
        let copy = rb.0.clone();
        refs(&copy).into_iter().zip(rb.0.into_vec().iter()).all(|(a, b)| a == b)
    }

    quickcheck(prop as fn(Ring) -> bool);
}

#[test]
fn check_mut_iter() {
    fn prop(rb: Ring) -> bool {
        let mut copy = rb.0.clone();
        let mut vec = rb.0.into_vec();
        let mut items = copy.mut_iter();
        let mut others = vec.iter_mut();
        let mut all = true;
        while let (Some(a), Some(b)) = (items.next(), others.next()) {
            all = all && a == b;
        }
        all
    }

    quickcheck(prop as fn(Ring) -> bool);
}

#[test]
fn check_move_iter() {
    fn prop(rb: Ring) -> bool {
        let mut items = rb.0.clone().move_iter();
        std::iter::from_fn(move || items.next()).zip(rb.0.into_vec().into_iter()).all(
            |(a, b)| a == b,
        )
    }

    quickcheck(prop as fn(Ring) -> bool);
}

#[test]
fn check_truncate() {
    fn prop(rb: Ring, len: usize) -> bool {
        let mut rb = rb.0;
        let mut vec = rb.clone().into_vec();
        vec.truncate(len);
        rb.truncate(len);
        RingBuf::from_vec(vec).eq(&rb)
    }

    quickcheck(prop as fn(Ring, usize) -> bool);
}
