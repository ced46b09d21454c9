use sliding_window::SlidingWindow;

#[test]
fn create() {
    let st = SlidingWindow::new(5, 6);
    assert!(st.eq_slice(&[6; 5]));
}

#[test]
fn create_too_small() {
    let st = SlidingWindow::new(0, 6);
    assert!(st.eq_slice(&[6; 1]));
}

#[test]
fn from() {
    let a = [5, 5, 5];
    let st = SlidingWindow::<u8>::from_slice(&a);
    assert!(st.eq_slice(&a));
}

#[test]
fn from_slice() {
    let a = vec![5, 5, 5];
    let st = SlidingWindow::from_slice(&a[..]);
    assert!(st.eq_slice(&a[..]));
}

#[test]
fn into_arr() {
    let st: SlidingWindow<u8> = SlidingWindow::from_slice(&[1, 1, 2]);
    assert!(st.eq_slice(&[1, 1, 2]))
}

#[test]
fn into_vec() {
    let a = vec![1, 1, 2];
    let st: SlidingWindow<u8> = SlidingWindow::from_slice(&a[..]);
    assert!(st.eq_slice(&a[..]))
}

#[test]
fn push() {
    let mut st = SlidingWindow::from_slice(&[10, 15, 16]);
    assert!(st.eq_slice(&[10, 15, 16]));
    st.push(5);
    assert!(st.eq_slice(&[5, 10, 15]));
    st.push(6);
    assert!(st.eq_slice(&[6, 5, 10]));
    st.push(7);
    assert!(st.eq_slice(&[7, 6, 5]));
    st.push(8);
    assert!(st.eq_slice(&[8, 7, 6]));
}

#[test]
fn push_slice() {
    let mut st = SlidingWindow::from_slice(&[10, 15, 16]);
    st.push_slice(&[3, 2, 1]);
    assert!(st.eq_slice(&[3, 2, 1]));
    st.push_slice(&[2, 3]);
    assert!(st.eq_slice(&[2, 3, 3]));
    st.push_slice(&[4]);
    assert!(st.eq_slice(&[4, 2, 3]));
}

#[test]
fn push_slice_too_much() {
    let mut st = SlidingWindow::new(5, 6);
    let a = [1; 6];
    st.push_slice(&a);
    assert!(!st.eq_slice(&a));
    assert!(st.eq_slice(&[1; 5]));
}

#[test]
fn use_iter() {
    let a = [1, 2, 3, 4];
    let mut st = SlidingWindow::from_slice(&a);
    st.push(2);
    let a = [2, 1, 2, 3];
    // internally the storage is laid out differently; if the walk were not
    // correctly reordered this would fail
    let mut it = st.iter();
    let mut j = 0;
    while let Some(i) = it.next() {
        assert_eq!(*i, a[j]);
        j += 1;
    }
    assert_eq!(j, a.len());
}

#[test]
fn use_iter_no_modif() {
    let a = [1, 2, 3, 4];
    let mut st = SlidingWindow::from_slice(&a);
    let mut it = st.iter();
    while let Some(x) = it.next() {
        let _ = x * x;
    }
    {
        let mut it = st.iter();
        let mut j = 0;
        let mut all = true;
        while let Some(x) = it.next() {
            all = all && *x == a[j];
            j += 1;
        }
        assert!(all);
    }
    st.iter_mut(|x| x * x);
    let mut it = st.iter();
    let mut j = 0;
    while let Some(x) = it.next() {
        assert_eq!(*x, a[j] * a[j]);
        j += 1;
    }
}

#[test]
fn use_iter_mut() {
    let a = [1, 2, 3, 4];
    let mut st = SlidingWindow::from_slice(&a);
    st.push(2);
    st.iter_mut(|s| s * s);
    let a: Vec<u8> = [2, 1, 2, 3].iter().map(|i| i * i).collect();
    assert!(st.eq_slice(&a[..]));
}

#[test]
fn for_loop() {
    let a = [1, 2, 3, 4];
    let st = SlidingWindow::from_slice(&a);
    let mut b = Vec::<i32>::new();
    let mut it = st.iter();
    while let Some(c) = it.next() {
        b.push(*c);
    }
    assert!(st.eq_slice(&b[..]));
}

#[test]
fn index() {
    let a = [1, 2, 3, 4, 5];
    let mut st = SlidingWindow::from_slice(&a);
    assert!(a
        .iter()
        .enumerate()
        .all(|(index, value)| { *value == *st.index(index) }));
    st.push(5);
    let a = [5, 1, 2, 3, 4];
    assert!(a
        .iter()
        .enumerate()
        .all(|(index, value)| { *value == *st.index(index) }));
    st.push_slice(&[5, 3]);
    let a = [5, 3, 5, 1, 2];
    a.iter().enumerate().for_each(|(index, value)| {
        assert_eq!(*value, *st.index(index));
    });
}

#[test]
fn partialeqs() {
    let a = [5; 4];
    let st = SlidingWindow::new(4, 5);
    assert!(st.eq_slice(&a));
    let a = vec![1, 5, 6, 7, -8];
    let st = SlidingWindow::from_slice(&a[..]);
    assert!(st.eq_slice(&a[..]));
}

#[test]
fn partialneqs() {
    // longer
    let a = [5; 5];
    let st = SlidingWindow::new(4, 5);
    assert!(!st.eq_slice(&a));
    let mut a = vec![1, 5, 6, -7, 8];
    let st = SlidingWindow::from_slice(&a[..]);
    a.push(5);
    assert!(!st.eq_slice(&a[..]));
    // Shorter
    let a = [5; 3];
    let st = SlidingWindow::new(4, 5);
    assert!(!st.eq_slice(&a));
    let mut a = vec![1, 5, 6, 7, 8];
    let st = SlidingWindow::from_slice(&a[..]);
    a.pop();
    assert!(!st.eq_slice(&a[..]));
    // different
    let a = [5, -5, 5, 3];
    let st = SlidingWindow::new(4, 5);
    assert!(!st.eq_slice(&a));
    let mut a = vec![1, 5, 6, 7, 8];
    let st = SlidingWindow::from_slice(&a[..]);
    a.pop();
    a.push(4);
    assert!(!st.eq_slice(&a[..]));
}
