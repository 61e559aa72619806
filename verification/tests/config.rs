use dlt_user::config::{
    choose_value, mode_from, read_setting, BufferConfig, DEFAULT_BATCH_SIZE, DEFAULT_BUFFER_SIZE,
    DEFAULT_NUM_BUFFERS, DEFAULT_TIMEOUT_MS,
};
use dlt_user::lockless::MAX_BUFFER_CAPACITY;
use dlt_user::ring::OverflowMode;

fn settings(texts: &[Option<&str>]) -> Vec<Option<String>> {
    texts.iter().map(|text| text.map(|t| t.to_string())).collect()
}

#[test]
fn defaults_where_nothing_is_set() {
    let config = BufferConfig::from_settings(None, &Vec::new(), None, None);
    assert_eq!(config.num_buffers, 4);
    assert_eq!(config.buffer_sizes, vec![2048, 2048, 2048, 2048]);
    assert_eq!(config.batch_size, 16);
    assert_eq!(config.overflow_mode, OverflowMode::Overwrite);
    assert_eq!(
        (DEFAULT_NUM_BUFFERS, DEFAULT_BUFFER_SIZE, DEFAULT_BATCH_SIZE, DEFAULT_TIMEOUT_MS),
        (4, 2048, 16, 100)
    );
}

#[test]
fn settings_are_read_as_decimal_numbers() {
    let sizes = settings(&[Some("8"), None, Some("512")]);
    let config = BufferConfig::from_settings(Some("3"), &sizes, Some("4"), Some("1"));
    assert_eq!(config.num_buffers, 3);
    assert_eq!(config.buffer_sizes, vec![8, 2048, 512]);
    assert_eq!(config.batch_size, 4);
    assert_eq!(config.overflow_mode, OverflowMode::DropNewest);
}

#[test]
fn rings_beyond_the_given_sizes_get_the_default() {
    let sizes = settings(&[Some("1")]);
    let config = BufferConfig::from_settings(Some("3"), &sizes, None, Some("2"));
    assert_eq!(config.buffer_sizes, vec![1, 2048, 2048]);
    assert_eq!(config.overflow_mode, OverflowMode::BlockWithTimeout);
    let longer = settings(&[Some("5"), Some("6"), Some("7")]);
    let config = BufferConfig::from_settings(Some("2"), &longer, None, None);
    assert_eq!(config.buffer_sizes, vec![5, 6]);
}

#[test]
fn unreadable_settings_count_as_not_made() {
    let sizes = settings(&[Some("big"), Some(""), Some(" 8"), Some("-1")]);
    let config = BufferConfig::from_settings(Some("four"), &sizes, Some("1.5"), Some("x"));
    assert_eq!(config.num_buffers, 4);
    assert_eq!(config.buffer_sizes, vec![2048; 4]);
    assert_eq!(config.batch_size, 16);
    assert_eq!(config.overflow_mode, OverflowMode::Overwrite);
}

#[test]
fn unusable_numbers_count_as_not_made() {
    assert_eq!(BufferConfig::num_buffers_from(Some("0")), 4);
    assert_eq!(BufferConfig::num_buffers_from(Some("1")), 1);
    assert_eq!(BufferConfig::num_buffers_from(Some("8")), 8);
    assert_eq!(BufferConfig::num_buffers_from(Some("99999999999999999999999")), 4);
    assert_eq!(BufferConfig::num_buffers_from(None), 4);
    let too_large = (MAX_BUFFER_CAPACITY + 1).to_string();
    let largest = MAX_BUFFER_CAPACITY.to_string();
    let sizes = settings(&[Some("0"), Some(&too_large), Some(&largest)]);
    let config = BufferConfig::from_settings(Some("3"), &sizes, Some("0"), None);
    assert_eq!(config.buffer_sizes, vec![2048, 2048, MAX_BUFFER_CAPACITY]);
    assert_eq!(config.batch_size, 0);
}

#[test]
fn overflow_mode_setting() {
    let mode = |text: &str| {
        BufferConfig::from_settings(None, &Vec::new(), None, Some(text)).overflow_mode
    };
    assert_eq!(mode("0"), OverflowMode::Overwrite);
    assert_eq!(mode("1"), OverflowMode::DropNewest);
    assert_eq!(mode("2"), OverflowMode::BlockWithTimeout);
    assert_eq!(mode("3"), OverflowMode::Overwrite);
    assert_eq!(mode("255"), OverflowMode::Overwrite);
    assert_eq!(mode("256"), OverflowMode::Overwrite);
    assert_eq!(mode("257"), OverflowMode::Overwrite);
    assert_eq!(mode("+2"), OverflowMode::BlockWithTimeout);
    assert_eq!(mode("02"), OverflowMode::BlockWithTimeout);
    assert_eq!(mode("two"), OverflowMode::Overwrite);
    assert_eq!(mode_from(Some(1)), OverflowMode::DropNewest);
    assert_eq!(mode_from(Some(258)), OverflowMode::Overwrite);
    assert_eq!(mode_from(None), OverflowMode::Overwrite);
}

#[test]
fn timeout_setting() {
    assert_eq!(OverflowMode::timeout_ms(None), 100);
    assert_eq!(OverflowMode::timeout_ms(Some("50")), 50);
    assert_eq!(OverflowMode::timeout_ms(Some("0")), 0);
    assert_eq!(OverflowMode::timeout_ms(Some("soon")), 100);
    assert_eq!(OverflowMode::timeout_ms(Some("18446744073709551615")), u64::MAX);
    assert_eq!(OverflowMode::timeout_ms(Some("18446744073709551616")), 100);
}

#[test]
fn reading_and_choosing() {
    assert_eq!(read_setting(None), None);
    assert_eq!(read_setting(Some("42")), Some(42));
    assert_eq!(read_setting(Some("4 2")), None);
    for number in [0u64, 4, 10, 2048, 1_048_577, u64::MAX] {
        assert_eq!(read_setting(Some(&number.to_string())), Some(number));
    }
    assert_eq!(BufferConfig::num_buffers_from(Some("4")), 4);
    assert_eq!(choose_value(Some(5), 1, 10, 7), 5);
    assert_eq!(choose_value(Some(1), 1, 10, 7), 1);
    assert_eq!(choose_value(Some(10), 1, 10, 7), 10);
    assert_eq!(choose_value(Some(0), 1, 10, 7), 7);
    assert_eq!(choose_value(Some(11), 1, 10, 7), 7);
    assert_eq!(choose_value(None, 1, 10, 7), 7);
}

#[test]
fn names_of_the_capacity_settings() {
    assert_eq!(BufferConfig::buffer_size_variable(0), "DLT_USER_BUFFER_SIZE_0");
    assert_eq!(BufferConfig::buffer_size_variable(3), "DLT_USER_BUFFER_SIZE_3");
    assert_eq!(BufferConfig::buffer_size_variable(10), "DLT_USER_BUFFER_SIZE_10");
    assert_eq!(BufferConfig::buffer_size_variable(1205), "DLT_USER_BUFFER_SIZE_1205");
}
