use led_memory::{MemoryRow, TemplateApp};

fn datas(b: &TemplateApp) -> Vec<u32> {
    b.memory_rows().iter().map(|r| r.data).collect()
}

fn addresses(b: &TemplateApp) -> Vec<u32> {
    b.memory_rows().iter().map(|r| r.address).collect()
}

#[test]
fn default_bank_has_four_zero_rows() {
    let b = TemplateApp::default();
    assert_eq!(b.num_rows(), 4);
    assert_eq!(addresses(&b), vec![0, 4, 8, 12]);
    assert_eq!(datas(&b), vec![0, 0, 0, 0]);
}

#[test]
fn initialize_builds_aligned_zero_rows() {
    let mut b = TemplateApp::default();
    b.set_test_pattern();
    b.initialize_memory_rows(6);
    assert_eq!(b.num_rows(), 6);
    assert_eq!(addresses(&b), vec![0, 4, 8, 12, 16, 20]);
    assert_eq!(datas(&b), vec![0; 6]);
    b.initialize_memory_rows(0);
    assert_eq!(b.num_rows(), 0);
    assert!(b.memory_rows().is_empty());
}

#[test]
fn add_row_continues_addresses() {
    let mut b = TemplateApp::default();
    b.add_memory_row();
    assert_eq!(b.num_rows(), 5);
    assert_eq!(b.memory_rows()[4], MemoryRow::new(16, 0));
    b.add_memory_row();
    assert_eq!(addresses(&b), vec![0, 4, 8, 12, 16, 20]);
}

#[test]
fn add_then_remove_restores_rows() {
    let mut b = TemplateApp::default();
    b.set_test_pattern();
    b.set_memory_data(8, 7);
    let before: Vec<MemoryRow> = b.memory_rows().to_vec();
    b.add_memory_row();
    b.remove_memory_row();
    assert_eq!(b.memory_rows().to_vec(), before);
    assert_eq!(b.num_rows(), 4);
}

#[test]
fn remove_on_empty_bank_is_noop() {
    let mut b = TemplateApp::default();
    for _ in 0..4 {
        b.remove_memory_row();
    }
    assert_eq!(b.num_rows(), 0);
    b.remove_memory_row();
    assert_eq!(b.num_rows(), 0);
    assert!(b.memory_rows().is_empty());
}

#[test]
fn load_grows_and_sets_rows() {
    let mut b = TemplateApp::default();
    b.initialize_memory_rows(1);
    b.load_memory_from_array(&[0xA, 0xB, 0xC]);
    assert_eq!(b.num_rows(), 3);
    assert_eq!(addresses(&b), vec![0, 4, 8]);
    assert_eq!(datas(&b), vec![0xA, 0xB, 0xC]);
}

#[test]
fn load_shorter_keeps_trailing_rows() {
    let mut b = TemplateApp::default();
    b.initialize_memory_rows(5);
    b.set_memory_data(12, 33);
    b.set_memory_data(16, 44);
    b.load_memory_from_array(&[1, 2, 3]);
    assert_eq!(b.num_rows(), 5);
    assert_eq!(datas(&b), vec![1, 2, 3, 33, 44]);
    b.load_memory_from_array(&[]);
    assert_eq!(datas(&b), vec![1, 2, 3, 33, 44]);
}

#[test]
fn test_pattern_on_four_rows() {
    let mut b = TemplateApp::default();
    b.set_test_pattern();
    assert_eq!(datas(&b), vec![0xAAAA_AAAA, 0x5555_5555, 0xAAAA_AAAA, 0x5555_5555]);
    assert_eq!(addresses(&b), vec![0, 4, 8, 12]);
}

#[test]
fn clear_zeroes_every_row() {
    let mut b = TemplateApp::default();
    b.load_memory_from_array(&[9, 8, 7, 6, 5]);
    b.clear_memory();
    assert_eq!(b.num_rows(), 5);
    assert_eq!(datas(&b), vec![0; 5]);
    assert_eq!(addresses(&b), vec![0, 4, 8, 12, 16]);
}

#[test]
fn get_unknown_address_is_none() {
    let b = TemplateApp::default();
    assert_eq!(b.get_memory_data(16), None);
    assert_eq!(b.get_memory_data(2), None);
    assert_eq!(b.get_memory_data(u32::MAX), None);
    assert_eq!(b.get_memory_data(0), Some(0));
}

#[test]
fn set_then_get_data() {
    let mut b = TemplateApp::default();
    b.set_memory_data(0x0000_0004, 0x1234_ABCD);
    assert_eq!(b.get_memory_data(0x0000_0004), Some(0x1234_ABCD));
    assert_eq!(datas(&b), vec![0, 0x1234_ABCD, 0, 0]);
}

#[test]
fn set_unknown_address_is_noop() {
    let mut b = TemplateApp::default();
    b.set_memory_data(6, 99);
    b.set_memory_data(400, 99);
    assert_eq!(datas(&b), vec![0, 0, 0, 0]);
    assert_eq!(b.num_rows(), 4);
}

#[test]
fn set_bit_then_clear_scenario() {
    let mut b = TemplateApp::default();
    b.set_row_bit(0, 31, true);
    assert_eq!(b.memory_rows()[0].data, 0x8000_0000);
    assert!(b.memory_rows()[0].get_bit(31));
    b.clear_memory();
    assert_eq!(b.memory_rows()[0].data, 0);
}

#[test]
fn set_row_bit_out_of_range_is_noop() {
    let mut b = TemplateApp::default();
    b.set_row_bit(4, 0, true);
    b.set_row_bit(0, 32, true);
    assert_eq!(datas(&b), vec![0, 0, 0, 0]);
    b.set_row_bit(3, 0, true);
    assert_eq!(datas(&b), vec![0, 0, 0, 1]);
    b.set_row_bit(3, 0, false);
    assert_eq!(datas(&b), vec![0, 0, 0, 0]);
}
