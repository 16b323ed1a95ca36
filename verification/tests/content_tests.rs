use backup::archive::content::{
    compress_copy, decompress_copy, CodecError, ContentCompression,
    ContentReader, ContentSettings, ContentWriter,
};
use backup::checksum::HashAlgo;
use backup::misc_helper::{copy_convert, mebibyte, CopyAction, BUFFER_SIZE};

fn sample() -> Vec<u8> {
    let mut data = Vec::new();
    for i in 0..5000u32 {
        data.extend_from_slice(format!("line {} of the sample\n", i % 37).as_bytes());
    }
    data
}

#[test]
fn plain_blob_is_the_content() {
    let data = sample();
    assert_eq!(compress_copy(&data, &ContentCompression::Plain), Ok(data.clone()));
    assert_eq!(decompress_copy(&data, &ContentCompression::Plain), Ok(data.clone()));
    assert_eq!(compress_copy(b"", &ContentCompression::Plain), Ok(Vec::new()));
}

#[test]
fn bzip2_blob_is_a_bzip2_stream_and_reads_back() {
    let data = sample();
    for level in 1..=9u32 {
        let compression = ContentCompression::Bzip2 { level };
        let blob = compress_copy(&data, &compression).unwrap();
        assert_ne!(blob, data);
        assert!(blob.len() < data.len());
        assert_eq!(&blob[..3], b"BZh");
        assert_eq!(blob[3], b'0' + level as u8);
        assert_eq!(decompress_copy(&blob, &compression), Ok(data.clone()));
    }
}

#[test]
fn bzip2_of_nothing_reads_back_as_nothing() {
    let compression = ContentCompression::Bzip2 { level: 1 };
    let blob = compress_copy(b"", &compression).unwrap();
    assert!(!blob.is_empty());
    assert_eq!(decompress_copy(&blob, &compression), Ok(Vec::new()));
}

#[test]
fn bzip2_is_the_same_each_time() {
    let compression = ContentCompression::Bzip2 { level: 5 };
    assert_eq!(compress_copy(b"hello\n", &compression), compress_copy(b"hello\n", &compression));
}

#[test]
fn levels_outside_one_to_nine_are_refused() {
    assert_eq!(
        compress_copy(b"x", &ContentCompression::Bzip2 { level: 0 }),
        Err(CodecError::InvalidLevel)
    );
    assert_eq!(
        compress_copy(b"x", &ContentCompression::Bzip2 { level: 10 }),
        Err(CodecError::InvalidLevel)
    );
    assert_eq!(
        CodecError::InvalidLevel.message(),
        "expected a compression level in the range 1..=9"
    );
}

#[test]
fn broken_blob_is_reported() {
    let compression = ContentCompression::Bzip2 { level: 1 };
    assert_eq!(decompress_copy(b"this is no bzip2", &compression), Err(CodecError::CorruptData));
    let blob = compress_copy(&sample(), &compression).unwrap();
    assert_eq!(
        decompress_copy(&blob[..blob.len() / 2], &compression),
        Err(CodecError::CorruptData)
    );
}

#[test]
fn every_valid_level_compresses_every_content() {
    let contents: Vec<Vec<u8>> = vec![
        Vec::new(),
        vec![0],
        (0..=255u8).collect(),
        vec![0xff; 100_000],
        sample(),
    ];
    for content in &contents {
        for level in 1..=9u32 {
            let compression = ContentCompression::Bzip2 { level };
            let blob = compress_copy(content, &compression);
            assert!(blob.is_ok());
            assert_eq!(decompress_copy(&blob.unwrap(), &compression), Ok(content.clone()));
        }
    }
}

#[test]
fn copy_convert_goes_both_ways() {
    let data = sample();
    let compression = ContentCompression::Bzip2 { level: 9 };
    let blob = copy_convert(&data, &compression, CopyAction::Compress).unwrap();
    assert_eq!(Ok(blob.clone()), compress_copy(&data, &compression));
    assert_eq!(copy_convert(&blob, &compression, CopyAction::UnCompress), Ok(data.clone()));
    assert_eq!(
        copy_convert(&data, &ContentCompression::Plain, CopyAction::Compress),
        Ok(data.clone())
    );
    assert_eq!(
        copy_convert(&data, &compression, CopyAction::UnCompress),
        Err(CodecError::CorruptData)
    );
}

#[test]
fn content_writer_counts_and_encodes() {
    let settings = ContentSettings {
        compression: ContentCompression::Bzip2 { level: 3 },
        hash_algo: HashAlgo::Sha256,
    };
    let mut writer = ContentWriter::new(&settings);
    assert_eq!(writer.bytes_written(), 0);
    assert_eq!(writer.write(b"hello"), 5);
    assert_eq!(writer.write(b""), 0);
    assert_eq!(writer.write(b"\n"), 1);
    assert_eq!(writer.bytes_written(), 6);
    let blob = writer.finish().unwrap();
    assert_eq!(Ok(blob), compress_copy(b"hello\n", &settings.compression));
}

#[test]
fn content_reader_hands_out_pieces_and_hashes_them() {
    let settings = ContentSettings {
        compression: ContentCompression::Bzip2 { level: 1 },
        hash_algo: HashAlgo::Sha256,
    };
    let blob = compress_copy(b"hello\n", &settings.compression).unwrap();
    let mut reader = ContentReader::new(&blob, &settings, true).unwrap();
    assert_eq!(reader.read(4), b"hell".to_vec());
    assert_eq!(reader.read(0), Vec::<u8>::new());
    assert_eq!(reader.read(4), b"o\n".to_vec());
    assert_eq!(reader.read(4), Vec::<u8>::new());
    assert_eq!(
        reader.hash().unwrap().to_string(),
        "5891b5b522d5df086d0ff0b110fbd9d21bb4fc7163af34d08286a2e846f6be03"
    );
    let mut plain = ContentReader::new(&blob, &settings, false).unwrap();
    assert_eq!(plain.read(100), b"hello\n".to_vec());
    assert!(plain.hash().is_none());
    assert_eq!(
        ContentReader::new(b"broken", &settings, true).err(),
        Some(CodecError::CorruptData)
    );
}

#[test]
fn buffer_is_one_mebibyte() {
    assert_eq!(mebibyte(1), 1024 * 1024);
    assert_eq!(mebibyte(0), 0);
    assert_eq!(mebibyte(3), 3_145_728);
    assert_eq!(BUFFER_SIZE, mebibyte(1));
}
