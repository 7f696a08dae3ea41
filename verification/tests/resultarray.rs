use bmk_linux::resultarray::{ResultArray, PAGE_SIZE};
use std::cell::Cell;
use std::rc::Rc;

/// Counts how many of its kind have been dropped.
struct Counted {
    value: u64,
    drops: Rc<Cell<usize>>,
}

impl Drop for Counted {
    fn drop(&mut self) {
        self.drops.set(self.drops.get() + 1);
    }
}

/// An element that is 64 bytes long.
#[derive(Clone, Copy, Debug, PartialEq)]
struct Wide([u64; 8]);

#[test]
fn page_size_is_four_kilobytes() {
    assert_eq!(PAGE_SIZE, 4096);
}

#[test]
fn region_size_accepts_whole_pages() {
    assert_eq!(ResultArray::<u64>::region_size(512), Some(4096));
    assert_eq!(ResultArray::<u64>::region_size(1024), Some(8192));
    assert_eq!(ResultArray::<u8>::region_size(4096), Some(4096));
    assert_eq!(ResultArray::<Wide>::region_size(64), Some(4096));
    assert_eq!(ResultArray::<Wide>::region_size(64 * 1000), Some(4096 * 1000));
}

#[test]
fn region_size_rejects_no_bytes() {
    assert_eq!(ResultArray::<u64>::region_size(0), None);
    assert_eq!(ResultArray::<()>::region_size(4096), None);
}

#[test]
fn region_size_rejects_part_of_a_page() {
    assert_eq!(ResultArray::<u64>::region_size(1), None);
    assert_eq!(ResultArray::<u64>::region_size(511), None);
    assert_eq!(ResultArray::<u64>::region_size(513), None);
    assert_eq!(ResultArray::<u8>::region_size(4095), None);
}

#[test]
fn region_size_rejects_what_no_offset_reaches() {
    // Whole pages, but as many bytes as the largest offset and one more.
    let cap = (isize::MAX as usize + 1) / 8;
    assert_eq!(ResultArray::<u64>::region_size(cap), None);
    // The largest number of whole pages below that is accepted.
    assert_eq!(
        ResultArray::<u64>::region_size(cap - 512),
        Some(isize::MAX as usize + 1 - 4096)
    );
    // The size in bytes does not fit in a `usize`.
    assert_eq!(ResultArray::<u64>::region_size(usize::MAX), None);
}

#[test]
fn new_array_is_empty() {
    let array: ResultArray<u64> = ResultArray::new(512);
    assert_eq!(array.len(), 0);
    assert_eq!(array.capacity(), 512);
    assert_eq!(array.size(), 4096);
    assert_eq!(array.iter().count(), 0);
    assert!(array.as_slice().is_empty());
}

#[test]
fn iter_yields_pushed_elements_in_order() {
    let mut array: ResultArray<u64> = ResultArray::new(512);
    array.push(30);
    array.push(10);
    array.push(20);
    assert_eq!(array.len(), 3);
    assert_eq!(array.iter().copied().collect::<Vec<u64>>(), vec![30, 10, 20]);
    assert_eq!(array.as_slice(), &[30, 10, 20]);
    // The iterator can be started again.
    assert_eq!(array.iter().copied().collect::<Vec<u64>>(), vec![30, 10, 20]);
}

#[test]
fn array_can_be_filled_to_capacity() {
    let mut array: ResultArray<u64> = ResultArray::new(512);
    for i in 0..512u64 {
        assert!(array.len() < array.capacity());
        array.push(i * i);
    }
    assert_eq!(array.len(), 512);
    assert_eq!(array.capacity(), 512);
    assert_eq!(array.size(), 4096);
    let seen: Vec<u64> = array.iter().copied().collect();
    let expected: Vec<u64> = (0..512u64).map(|i| i * i).collect();
    assert_eq!(seen, expected);
}

#[test]
fn storage_does_not_move_while_the_array_fills() {
    let mut array: ResultArray<u64> = ResultArray::new(512);
    array.push(1);
    let at = array.as_slice().as_ptr();
    for i in 1..512u64 {
        array.push(i);
    }
    assert_eq!(array.as_slice().as_ptr(), at);
}

#[test]
fn pop_drops_the_last_element() {
    let mut array: ResultArray<u64> = ResultArray::new(512);
    array.push(1);
    array.push(2);
    array.push(3);
    array.pop();
    assert_eq!(array.as_slice(), &[1, 2]);
    assert_eq!(array.capacity(), 512);
    array.push(4);
    assert_eq!(array.as_slice(), &[1, 2, 4]);
}

#[test]
fn clear_empties_the_array_and_keeps_its_capacity() {
    let mut array: ResultArray<u64> = ResultArray::new(512);
    for i in 0..100u64 {
        array.push(i);
    }
    array.clear();
    assert_eq!(array.len(), 0);
    assert_eq!(array.capacity(), 512);
    assert_eq!(array.iter().count(), 0);
    array.clear();
    assert_eq!(array.len(), 0);
}

#[test]
fn dropping_the_array_drops_each_element_once() {
    let drops = Rc::new(Cell::new(0));
    // 16 bytes an element: 256 of them fill a page.
    assert_eq!(std::mem::size_of::<Counted>(), 16);
    {
        let mut array: ResultArray<Counted> = ResultArray::new(256);
        for value in 0..7u64 {
            array.push(Counted { value, drops: drops.clone() });
        }
        assert_eq!(array.iter().map(|c| c.value).sum::<u64>(), 21);
        assert_eq!(drops.get(), 0);
    }
    assert_eq!(drops.get(), 7);
}

#[test]
fn dropping_an_empty_array_drops_nothing() {
    let drops = Rc::new(Cell::new(0));
    {
        let array: ResultArray<Counted> = ResultArray::new(256);
        assert_eq!(array.len(), 0);
    }
    assert_eq!(drops.get(), 0);
}

#[test]
fn pop_and_clear_drop_what_they_remove() {
    let drops = Rc::new(Cell::new(0));
    let mut array: ResultArray<Counted> = ResultArray::new(256);
    for value in 0..5u64 {
        array.push(Counted { value, drops: drops.clone() });
    }
    array.pop();
    assert_eq!(drops.get(), 1);
    array.clear();
    assert_eq!(drops.get(), 5);
    drop(array);
    assert_eq!(drops.get(), 5);
}
