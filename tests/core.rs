use creature_sampler::counter::Counter;
use creature_sampler::index::PointIndex;
use creature_sampler::lines::Style;
use creature_sampler::sampler::{refit, relax, resample, spread};
use creature_sampler::store::SampleStore;
use creature_sampler::surface::{Frame, Phase, RenderSurface};

fn close(a: &(i64, i64), b: &(i64, i64)) -> bool {
    let dx = a.0 - b.0;
    let dy = a.1 - b.1;
    dx * dx + dy * dy < 4
}

fn lattice_neighbours(p: &(i64, i64)) -> Vec<(i64, i64)> {
    let mut v = Vec::new();
    for (dx, dy) in [(2, 0), (-2, 0), (0, 2), (0, -2)] {
        let q = (p.0 + dx, p.1 + dy);
        if q.0.abs() <= 6 && q.1.abs() <= 6 {
            v.push(q);
        }
    }
    v
}

#[test]
fn counter_walks_fibonacci() {
    let mut c = Counter::default();
    let got: Vec<u64> = (0..10).map(|_| c.increment()).collect();
    assert_eq!(got, vec![1, 2, 3, 5, 8, 13, 21, 34, 55, 89]);
}

#[test]
fn counter_checked_stops_before_overflow() {
    let mut c = Counter::default();
    let mut last = 0;
    let mut n = 0;
    while let Some(v) = c.checked_increment() {
        assert!(v > last);
        last = v;
        n += 1;
    }
    // fib(n) fits while fib(n + 2) still does
    assert_eq!(n, 90);
    assert_eq!(c.checked_increment(), None);
}

#[test]
fn style_codes_round_trip() {
    for s in [Style::Plain, Style::Arrow, Style::Circle] {
        assert_eq!(Style::from_code(s.code()), Some(s));
    }
    assert_eq!(Style::Arrow.code(), 1);
    assert_eq!(Style::from_code(2), Some(Style::Circle));
    assert_eq!(Style::from_code(3), None);
    assert_eq!(Style::from_code(255), None);
}

#[test]
fn store_push_mutate_clear() {
    let mut s: SampleStore<u32> = SampleStore::new(3);
    assert!(s.is_empty());
    s.push_back(7);
    s.push_back(8);
    s.mutate(0, 9);
    assert_eq!(s.as_slice(), &[9, 8]);
    assert_eq!(*s.get(1), 8);
    assert_eq!(s.len(), 2);
    assert_eq!(s.capacity(), 3);
    let taken = s.take_all();
    assert_eq!(taken, vec![9, 8]);
    assert!(s.is_empty());
    s.push_back(1);
    s.clear();
    assert_eq!(s.len(), 0);
    assert_eq!(s.capacity(), 3);
}

#[test]
fn index_any_near() {
    let mut idx = PointIndex::new();
    assert!(!idx.any_near(&(0, 0), &close));
    idx.push((0, 0));
    idx.append(vec![(5, 5), (9, 0)]);
    assert_eq!(idx.len(), 3);
    assert!(idx.any_near(&(1, 1), &close));
    assert!(!idx.any_near(&(2, 0), &close));
    assert!(idx.any_near(&(9, 1), &close));
    assert_eq!(idx.items(), &vec![(0, 0), (5, 5), (9, 0)]);
    idx.clear();
    assert!(!idx.any_near(&(0, 0), &close));
}

#[test]
fn relax_drops_later_of_crowded_pair() {
    let pts = vec![(0, 0), (1, 0), (3, 0), (3, 1), (0, 0), (10, 10)];
    let r = relax(&pts, &close);
    assert_eq!(r, vec![(0, 0), (3, 0), (10, 10)]);
    assert_eq!(relax(&Vec::<(i64, i64)>::new(), &close), vec![]);
}

#[test]
fn relax_keeps_separated_points() {
    let pts = vec![(0, 0), (2, 0), (4, 0), (0, 2)];
    assert_eq!(relax(&pts, &close), pts);
}

#[test]
fn refit_drops_failed_projections() {
    let pts = vec![(1, 1), (-2, 3), (4, -1), (0, 0)];
    let project = |p: &(i64, i64)| if p.0 >= 0 { Some((p.0 * 2, p.1)) } else { None };
    assert_eq!(refit(&pts, &project), vec![(2, 1), (8, -1), (0, 0)]);
}

#[test]
fn spread_fills_bounded_lattice() {
    let r = spread(vec![(0, 0)], &lattice_neighbours, &close, 1000);
    // every even lattice point of the square [-6, 6]^2
    assert_eq!(r.len(), 49);
    assert_eq!(r[0], (0, 0));
    for i in 0..r.len() {
        assert!(r[i].0 % 2 == 0 && r[i].1 % 2 == 0);
        for j in (i + 1)..r.len() {
            assert!(!close(&r[i], &r[j]));
        }
    }
}

#[test]
fn spread_stops_at_cap() {
    let r = spread(vec![(0, 0)], &lattice_neighbours, &close, 10);
    assert_eq!(r.len(), 10);
    assert_eq!(r[0], (0, 0));
    let r = spread(vec![], &lattice_neighbours, &close, 10);
    assert!(r.is_empty());
}

#[test]
fn resample_reseeds_empty_store() {
    let mut store: SampleStore<(i64, i64)> = SampleStore::new(1000);
    let project = |p: &(i64, i64)| Some(*p);
    let seed = || (2, 2);
    resample(&mut store, &project, &lattice_neighbours, &close, &seed);
    assert_eq!(store.len(), 49);
    assert_eq!(*store.get(0), (2, 2));
}

#[test]
fn resample_keeps_survivors_first() {
    let mut store: SampleStore<(i64, i64)> = SampleStore::new(1000);
    store.push_back((0, 0));
    store.push_back((1, 0));
    store.push_back((100, 100));
    store.push_back((4, 4));
    let project = |p: &(i64, i64)| if p.0 < 50 { Some(*p) } else { None };
    let seed = || (2, 2);
    resample(&mut store, &project, &lattice_neighbours, &close, &seed);
    assert_eq!(*store.get(0), (0, 0));
    assert_eq!(*store.get(1), (4, 4));
    assert_eq!(store.len(), 49);
}

#[test]
fn resample_respects_capacity() {
    let mut store: SampleStore<(i64, i64)> = SampleStore::new(5);
    let project = |p: &(i64, i64)| Some(*p);
    let seed = || (0, 0);
    resample(&mut store, &project, &lattice_neighbours, &close, &seed);
    assert_eq!(store.len(), 5);
    let mut empty: SampleStore<(i64, i64)> = SampleStore::new(0);
    resample(&mut empty, &project, &lattice_neighbours, &close, &seed);
    assert_eq!(empty.len(), 0);
}

#[test]
fn frame_protocol() {
    let mut f: Frame<u8> = Frame::new();
    assert_eq!(f.phase(), Phase::Idle);
    f.begin();
    assert_eq!(f.phase(), Phase::Collecting);
    f.draw(3);
    f.draw(4);
    assert_eq!(f.surface().shapes(), &vec![3, 4]);
    assert_eq!(f.surface().len(), 2);
    f.end(17);
    assert_eq!(f.phase(), Phase::Ready);
    assert_eq!(f.instance_count(), 17);
    assert!(f.surface().is_empty());
    f.begin();
    assert_eq!(f.instance_count(), 0);
}

#[test]
fn render_surface_list() {
    let mut s: RenderSurface<i32> = RenderSurface::new();
    assert!(s.is_empty());
    s.push(1);
    s.push(2);
    assert_eq!(s.shapes(), &vec![1, 2]);
    s.clear();
    assert!(s.is_empty());
}
