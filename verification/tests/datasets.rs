use neural_net::datasets::{DatasetError, MNISTImageFile, MNISTLabelFile, MNIST};

#[test]
fn test_mnist_image_file() {
    let file: Vec<u8> = vec![
        0, 0, 8, 3, 0, 0, 0, 2, 0, 0, 0, 3, 0, 0, 0, 4, 1, 2, 3, 4, 5, 6, 7, 8, 9, 0, 1, 2, 1, 2,
        3, 4, 5, 6, 7, 8, 9, 0, 1, 2,
    ];
    let mut f = MNISTImageFile::new(file).unwrap();
    let image = f.next().unwrap().unwrap();
    assert_eq!(image.rows(), 3);
    assert_eq!(image.cols(), 4);
    assert_eq!(image.get(0, 0), 1);
    assert_eq!(image.get(1, 3), 8);
    let image = f.next().unwrap().unwrap();
    assert_eq!(image.get(0, 0), 1);
    assert_eq!(image.get(1, 3), 8);
    assert_eq!(f.next().is_none(), true);
}

#[test]
fn test_mnist_label_file() {
    let file: Vec<u8> = vec![0, 0, 8, 1, 0, 0, 0, 4, 1, 2, 3, 4];
    let mut f = MNISTLabelFile::new(file).unwrap();
    let mut count = 0;
    let mut i = 0;
    while let Some(label) = f.next() {
        assert_eq!(label.unwrap(), i as u8 + 1);
        count += 1;
        i += 1;
    }
    assert_eq!(count, 4);
}

#[test]
fn test_mnist() {
    let images: Vec<u8> = vec![
        0, 0, 8, 3, 0, 0, 0, 2, 0, 0, 0, 3, 0, 0, 0, 4, 1, 2, 3, 4, 5, 6, 7, 8, 9, 0, 1, 2, 1, 2,
        3, 4, 5, 6, 7, 8, 9, 0, 1, 2,
    ];
    let labels: Vec<u8> = vec![0, 0, 8, 1, 0, 0, 0, 2, 1, 2];
    let ds = MNIST::new(images, labels).unwrap();
    let label1 = ds.target(0);
    assert_eq!(label1.shape().len(), 0);
    assert_eq!(f32::from_bits(label1.data()[0]), 1.0);
    assert_eq!(ds.len(), 2);
}

#[test]
fn image_file_with_wrong_magic_is_refused() {
    let file: Vec<u8> = vec![0, 0, 8, 1, 0, 0, 0, 2, 0, 0, 0, 3, 0, 0, 0, 4];
    assert_eq!(MNISTImageFile::new(file).err(), Some(DatasetError::InvalidImageMagic));
}

#[test]
fn label_file_with_wrong_magic_is_refused() {
    let file: Vec<u8> = vec![0, 0, 8, 3, 0, 0, 0, 4, 1, 2, 3, 4];
    assert_eq!(MNISTLabelFile::new(file).err(), Some(DatasetError::InvalidLabelMagic));
}

#[test]
fn short_headers_are_refused() {
    assert_eq!(MNISTImageFile::new(vec![0, 0, 8]).err(), Some(DatasetError::UnexpectedEof));
    assert_eq!(
        MNISTImageFile::new(vec![0, 0, 8, 3, 0, 0, 0, 2]).err(),
        Some(DatasetError::UnexpectedEof)
    );
    assert_eq!(MNISTLabelFile::new(vec![0, 0, 8, 1, 0]).err(), Some(DatasetError::UnexpectedEof));
}

#[test]
fn header_numbers_are_read_most_significant_byte_first() {
    let mut file: Vec<u8> = vec![0, 0, 8, 3, 0, 0, 0, 1, 0, 0, 1, 2, 0, 0, 0, 1];
    file.extend(std::iter::repeat(7u8).take(258));
    let mut f = MNISTImageFile::new(file).unwrap();
    let image = f.next().unwrap().unwrap();
    assert_eq!(image.rows(), 258);
    assert_eq!(image.cols(), 1);
    assert_eq!(image.get(257, 0), 7);
}

#[test]
fn truncated_image_is_an_error() {
    let file: Vec<u8> = vec![0, 0, 8, 3, 0, 0, 0, 2, 0, 0, 0, 2, 0, 0, 0, 2, 1, 2, 3, 4, 5];
    let mut f = MNISTImageFile::new(file).unwrap();
    assert!(f.next().unwrap().is_ok());
    assert_eq!(f.next().unwrap().err(), Some(DatasetError::UnexpectedEof));
    let images: Vec<u8> = vec![0, 0, 8, 3, 0, 0, 0, 2, 0, 0, 0, 2, 0, 0, 0, 2, 1, 2, 3, 4, 5];
    let labels: Vec<u8> = vec![0, 0, 8, 1, 0, 0, 0, 2, 1, 2];
    assert_eq!(MNIST::new(images, labels).err(), Some(DatasetError::UnexpectedEof));
}

#[test]
fn label_file_that_ends_early_yields_fewer_labels() {
    let file: Vec<u8> = vec![0, 0, 8, 1, 0, 0, 0, 4, 1, 2];
    let mut f = MNISTLabelFile::new(file).unwrap();
    assert_eq!(f.next().unwrap().unwrap(), 1);
    assert_eq!(f.next().unwrap().unwrap(), 2);
    assert!(f.next().is_none());
}

#[test]
fn mismatched_counts_are_refused() {
    let images: Vec<u8> = vec![0, 0, 8, 3, 0, 0, 0, 1, 0, 0, 0, 1, 0, 0, 0, 1, 9];
    let labels: Vec<u8> = vec![0, 0, 8, 1, 0, 0, 0, 2, 1, 2];
    let e = MNIST::new(images, labels).err().unwrap();
    assert_eq!(e, DatasetError::MismatchedCounts { images: 1, labels: 2 });
    assert_eq!(
        e.message(),
        "mismatched image and label counts for mnist dataset (1 and 2)"
    );
}

#[test]
fn one_hot_targets() {
    let images: Vec<u8> = vec![0, 0, 8, 3, 0, 0, 0, 2, 0, 0, 0, 1, 0, 0, 0, 1, 9, 8];
    let labels: Vec<u8> = vec![0, 0, 8, 1, 0, 0, 0, 2, 0, 2];
    let ds = MNIST::new(images, labels).unwrap();
    assert_eq!(ds.target_shape(), Vec::<usize>::new());
    assert!(ds.labels_below(3));
    assert!(!ds.labels_below(2));
    let ds = ds.to_one_hot(3);
    assert_eq!(ds.target_shape(), vec![3]);
    let t: Vec<f32> = ds.target(1).data().iter().map(|b| f32::from_bits(*b)).collect();
    assert_eq!(t, vec![0.0, 0.0, 1.0]);
    assert_eq!(ds.input(1).pixels(), &vec![8u8]);
    assert_eq!(ds.label(0), 0);
}
