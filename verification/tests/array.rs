use std::cell::RefCell;
use std::sync::atomic::{AtomicUsize, Ordering};

use sakka::try_array_from_fn;

#[test]
fn builds_array_on_success() {
    let arr = try_array_from_fn::<_, (), 4>(|i| Ok((i as u32) * 2)).unwrap();
    assert_eq!(arr, [0, 2, 4, 6]);
}

#[test]
fn returns_error_and_drops_initialized_elements() {
    struct DropCounter<'a>(&'a AtomicUsize);

    impl Drop for DropCounter<'_> {
        fn drop(&mut self) {
            self.0.fetch_add(1, Ordering::SeqCst);
        }
    }

    let drops = AtomicUsize::new(0);

    let result = try_array_from_fn::<_, &'static str, 5>(|i| {
        if i == 2 {
            return Err("boom");
        }

        Ok(DropCounter(&drops))
    });

    match result {
        Err(err) => assert_eq!(err, "boom"),
        Ok(_) => panic!("expected error"),
    }
    assert_eq!(drops.load(Ordering::SeqCst), 2);
}

#[test]
fn supports_zero_length_arrays() {
    let called = AtomicUsize::new(0);

    let arr = try_array_from_fn::<_, (), 0>(|_| {
        called.fetch_add(1, Ordering::SeqCst);
        Ok(())
    })
    .unwrap();

    assert_eq!(arr, []);
    assert_eq!(called.load(Ordering::SeqCst), 0);
}

#[test]
fn calls_the_function_once_per_index_in_order_and_stops_at_the_first_error() {
    let mut seen = Vec::new();
    let result = try_array_from_fn::<u8, usize, 6>(|i| {
        seen.push(i);
        if i == 3 { Err(i) } else { Ok(i as u8) }
    });
    assert_eq!(result, Err(3));
    assert_eq!(seen, vec![0, 1, 2, 3]);
}

#[test]
fn elements_made_before_an_error_are_dropped_last_first() {
    struct Recorder<'a>(usize, &'a RefCell<Vec<usize>>);

    impl Drop for Recorder<'_> {
        fn drop(&mut self) {
            self.1.borrow_mut().push(self.0);
        }
    }

    let dropped = RefCell::new(Vec::new());
    let result = try_array_from_fn::<_, &'static str, 5>(|i| {
        if i == 3 {
            return Err("stop");
        }
        Ok(Recorder(i, &dropped))
    });

    assert!(result.is_err());
    assert_eq!(*dropped.borrow(), vec![2, 1, 0]);
}
