use hyperplane::location::AccountLocation;
use hyperplane::mapper::{parse_file_id, MmapAccountFile, MmapBatchReader, MmapError};
use std::path::Path;

fn mapped(bytes: &[u8]) -> memmap2::Mmap {
    let mut m = memmap2::MmapMut::map_anon(bytes.len()).unwrap();
    m.copy_from_slice(bytes);
    m.make_read_only().unwrap()
}

fn file_name(path: &str) -> &str {
    Path::new(path).file_name().unwrap().to_str().unwrap()
}

#[test]
fn test_mmap_open_and_read() {
    let test_data = vec![0u8; 1024];
    let mmap_file = MmapAccountFile::new(0, mapped(&test_data), "anon".to_string());
    assert_eq!(mmap_file.file_size(), 1024);

    let location = AccountLocation::new_base(0, 0, 100, 0, 100, 1, 1);
    let bytes = mmap_file.read_bytes(&location).unwrap();
    assert_eq!(bytes.len(), 100);
}

#[test]
fn test_out_of_bounds_detection() {
    let test_data = vec![0u8; 100];
    let mmap_file = MmapAccountFile::new(0, mapped(&test_data), "anon".to_string());

    let location = AccountLocation::new_base(0, 50, 100, 0, 100, 1, 1);
    let result = mmap_file.read_bytes(&location);
    assert!(result.is_err());

    if let Err(MmapError::OutOfBounds { .. }) = result {
    } else {
        panic!("Expected OutOfBounds error");
    }
}

#[test]
fn test_reads_give_the_mapped_bytes() {
    let data: Vec<u8> = (0..64u8).collect();
    let f = MmapAccountFile::new(3, mapped(&data), "anon".to_string());
    let loc = AccountLocation::new_base(3, 10, 20, 4, 8, 1, 1);
    assert_eq!(f.get_slice(&loc).unwrap(), &data[10..30]);
    assert_eq!(f.get_account_data(&loc).unwrap(), data[14..22].to_vec());
    assert!(f.is_valid_location(&loc));
    let edge = AccountLocation::new_base(3, 44, 20, 0, 20, 1, 1);
    assert!(f.is_valid_location(&edge));
    let past = AccountLocation::new_base(3, 45, 20, 0, 20, 1, 1);
    assert!(!f.is_valid_location(&past));
    match f.read_bytes(&past) {
        Err(MmapError::OutOfBounds { offset, len, file_size }) => {
            assert_eq!((offset, len, file_size), (45, 20, 64));
        }
        _ => panic!("Expected OutOfBounds error"),
    }
    let bad_data = AccountLocation::new_base(3, 60, 4, 2, 8, 1, 1);
    match f.get_account_data(&bad_data) {
        Err(MmapError::OutOfBounds { offset, len, file_size }) => {
            assert_eq!((offset, len, file_size), (62, 8, 64));
        }
        _ => panic!("Expected OutOfBounds error"),
    }
}

#[test]
fn test_batch_reader() {
    let a: Vec<u8> = vec![1u8; 32];
    let b: Vec<u8> = vec![2u8; 32];
    let reader = MmapBatchReader::new(vec![
        MmapAccountFile::new(1, mapped(&a), "a".to_string()),
        MmapAccountFile::new(2, mapped(&b), "b".to_string()),
    ]);
    let loc = AccountLocation::new_base(0, 0, 4, 0, 4, 1, 1);
    let far = AccountLocation::new_base(0, 30, 4, 0, 4, 1, 1);
    let results = reader.read_batch(&[(2, loc), (1, loc), (9, loc), (1, far)]);
    assert_eq!(results.len(), 4);
    assert_eq!(results[0].as_ref().unwrap(), &vec![2u8; 4]);
    assert_eq!(results[1].as_ref().unwrap(), &vec![1u8; 4]);
    assert!(matches!(results[2], Err(MmapError::IoError(_))));
    assert!(matches!(results[3], Err(MmapError::OutOfBounds { .. })));
}

#[test]
fn test_file_id_parsing() {
    assert_eq!(parse_file_id(file_name("/test/123456789.0")), Some(123456789));
    assert_eq!(parse_file_id(file_name("/test/987654321.1")), Some(987654321));
    assert_eq!(parse_file_id(file_name("/test/invalid")), None);
}

#[test]
fn test_file_id_parsing_edges() {
    assert_eq!(parse_file_id("7.0.1"), Some(7));
    assert_eq!(parse_file_id("+7.0"), Some(7));
    assert_eq!(parse_file_id(".0"), None);
    assert_eq!(parse_file_id("x1.0"), None);
    assert_eq!(parse_file_id("18446744073709551615.0"), Some(u64::MAX));
    assert_eq!(parse_file_id("18446744073709551616.0"), None);
}
