use wimlib_kit::progress::{classify_message, BarEnd, ProgressKind, ProgressMessage, ProgressState};
use wimlib_kit::types::{ProgressInfoIntegrity, ProgressInfoWriteStreams};

#[test]
fn length_is_set_once_by_the_first_nonzero_total() {
    let mut st = ProgressState::new(ProgressKind::Verify);
    let u = st.update(0, 0);
    assert_eq!(u.set_length, None);
    assert_eq!(u.position, 0);
    let u = st.update(10, 100);
    assert_eq!(u.set_length, Some(100));
    assert_eq!(u.position, 10);
    let u = st.update(50, 200);
    assert_eq!(u.set_length, None);
    assert_eq!(u.position, 50);
}

#[test]
fn integrity_record_moves_the_bar() {
    let mut st = ProgressState::new(ProgressKind::Verify);
    let info = ProgressInfoIntegrity {
        total_bytes: 4096,
        completed_bytes: 1024,
        total_chunks: 4,
        completed_chunks: 1,
        chunk_size: 1024,
    };
    let u = st.on_integrity(&info);
    assert_eq!(u.set_length, Some(4096));
    assert_eq!(u.position, 1024);
}

#[test]
fn labels_and_stages() {
    let st = ProgressState::new(ProgressKind::Extract);
    assert_eq!(st.label(), "解包");
    assert_eq!(st.set_stage("准备"), "解包·准备");
    assert_eq!(ProgressKind::Verify.prefix(), "校验");
    assert_eq!(ProgressKind::Optimize.prefix(), "优化");
    assert!(st.finish(true) == BarEnd::Finish);
    assert!(st.finish(false) == BarEnd::Abandon);
}

#[test]
fn messages_are_classified() {
    assert!(matches!(classify_message(4), ProgressMessage::ExtractBytes));
    assert!(matches!(classify_message(16), ProgressMessage::IntegrityBytes));
    assert!(matches!(classify_message(0), ProgressMessage::Stage("准备")));
    assert!(matches!(classify_message(3), ProgressMessage::Stage("目录结构")));
    assert!(matches!(classify_message(5), ProgressMessage::Stage("分卷")));
    assert!(matches!(classify_message(6), ProgressMessage::Stage("元数据")));
    assert!(matches!(classify_message(7), ProgressMessage::Stage("收尾")));
    assert!(matches!(classify_message(12), ProgressMessage::WriteBytes));
    assert!(matches!(classify_message(1), ProgressMessage::Ignore));
    assert!(matches!(classify_message(99), ProgressMessage::Ignore));
}

#[test]
fn write_record_moves_the_bar() {
    let mut st = ProgressState::new(ProgressKind::Convert);
    let info = ProgressInfoWriteStreams {
        total_bytes: 1000,
        total_streams: 3,
        completed_bytes: 250,
        completed_streams: 1,
        num_threads: 4,
        compression_type: 2,
        total_parts: 1,
        completed_parts: 0,
        completed_compressed_bytes: 100,
    };
    let u = st.on_write_streams(&info);
    assert_eq!(u.set_length, Some(1000));
    assert_eq!(u.position, 250);
    let u = st.on_write_streams(&info);
    assert_eq!(u.set_length, None);
}
