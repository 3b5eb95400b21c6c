use jetstreamer::cursor::ErrorKind;
use jetstreamer::epochs::ripget_reader::RipgetEpochReader;
use jetstreamer::epochs::s3_reader::{S3Action, S3Event, S3OpenError, S3Phase, S3SeekableReader};
use jetstreamer::epochs::slot_timestamp::{
    get_slot_timestamp, slot_request, BlockResult, RpcReply, RpcResponse, SlotTimestampError,
};
use jetstreamer::epochs::stream::{
    epoch_exists, fetch_epoch_stream, fetch_epoch_stream_with_options, locate_epoch, plan_stream,
    ArchivePlace, Backend, EpochStream, FetchEpochStreamOptions, HeadOutcome, OpenError, StreamPlan,
};
use jetstreamer::epochs::{car_path, epoch_to_slot_range, slot_to_epoch, BASE_URL, SLOTS_PER_EPOCH};
use jetstreamer::node_reader::Len;
use jetstreamer::seek_from::{SeekError, SeekFrom};

#[test]
fn test_epoch_to_slot() {
    assert_eq!(epoch_to_slot_range(0), (0, 431999));
    assert_eq!(epoch_to_slot_range(770), (332640000, 333071999));
}

#[test]
fn test_slot_to_epoch() {
    assert_eq!(slot_to_epoch(0), 0);
    assert_eq!(slot_to_epoch(431999), 0);
    assert_eq!(slot_to_epoch(432000), 1);
    assert_eq!(slot_to_epoch(332640000), 770);
    assert_eq!(slot_to_epoch(333071999), 770);
}

#[test]
fn test_epoch_to_slot_range() {
    assert_eq!(epoch_to_slot_range(0), (0, 431999));
    assert_eq!(epoch_to_slot_range(1), (432000, 863999));
    assert_eq!(epoch_to_slot_range(2), (864000, 1295999));
    assert_eq!(epoch_to_slot_range(3), (1296000, 1727999));
}

#[test]
fn epochs_follow_each_other() {
    for epoch in 0..5 {
        let (first, last) = epoch_to_slot_range(epoch);
        assert_eq!(last - first + 1, SLOTS_PER_EPOCH);
        assert_eq!(epoch_to_slot_range(epoch + 1).0, last + 1);
        assert_eq!(slot_to_epoch(first), epoch);
        assert_eq!(slot_to_epoch(last), epoch);
        assert_eq!(slot_to_epoch(last + 1), epoch + 1);
    }
}

#[test]
fn archives_are_named_by_their_epoch() {
    assert_eq!(car_path(670), "670/epoch-670.car");
    assert_eq!(car_path(0), "0/epoch-0.car");
    assert_eq!(car_path(u64::MAX), format!("{0}/epoch-{0}.car", u64::MAX));
}

#[test]
fn archives_lie_below_the_base_url() {
    assert_eq!(
        locate_epoch(670, &Backend::Http(BASE_URL.to_string())),
        Ok(ArchivePlace::Url("https://files.old-faithful.net/670/epoch-670.car".to_string()))
    );
    assert_eq!(
        locate_epoch(7, &Backend::Http("https://example.com/cars/".to_string())),
        Ok(ArchivePlace::Url("https://example.com/cars/7/epoch-7.car".to_string()))
    );
    assert_eq!(
        locate_epoch(7, &Backend::S3),
        Ok(ArchivePlace::Object("7/epoch-7.car".to_string()))
    );
}

#[test]
fn unusable_backends_are_reported() {
    assert!(matches!(
        locate_epoch(7, &Backend::Http("no url".to_string())),
        Err(OpenError::InvalidUrl(_))
    ));
    assert!(matches!(
        locate_epoch(7, &Backend::Http("mailto:someone".to_string())),
        Err(OpenError::InvalidUrl(_))
    ));
    assert_eq!(locate_epoch(7, &Backend::Unsupported), Err(OpenError::UnsupportedBackend));
    assert!(matches!(
        fetch_epoch_stream(7, &Backend::Unsupported),
        Err(OpenError::UnsupportedBackend)
    ));
}

#[test]
fn streams_are_seekable_by_default() {
    let options = FetchEpochStreamOptions::parallel_default();
    assert!(!options.sequential);
    assert_eq!(options.ripget_threads, 1);
    assert_eq!(options.buffer_window_bytes, 2);
    assert!(options.ripget_client.is_none());
    assert_eq!(format!("{:?}", options.clone()), format!("{options:?}"));
    match fetch_epoch_stream(670, &Backend::Http(BASE_URL.to_string())) {
        Ok(StreamPlan::Seekable { url }) => {
            assert_eq!(url, "https://files.old-faithful.net/670/epoch-670.car")
        }
        _ => panic!("a seekable stream"),
    }
    match fetch_epoch_stream(670, &Backend::S3) {
        Ok(StreamPlan::S3 { path }) => assert_eq!(path, "670/epoch-670.car"),
        _ => panic!("an object"),
    }
}

fn sequential(ripget_threads: usize, buffer_window_bytes: u64) -> FetchEpochStreamOptions {
    FetchEpochStreamOptions {
        sequential: true,
        ripget_threads,
        buffer_window_bytes,
        ripget_client: None,
    }
}

#[test]
fn sequential_streams_fall_back_to_seekable_ones() {
    let backend = Backend::Http(BASE_URL.to_string());
    match fetch_epoch_stream_with_options(670, &backend, Some(sequential(4, 1024))) {
        Ok(plan) => {
            match &plan {
                StreamPlan::Sequential { url, threads, window_bytes, client } => {
                    assert_eq!(url, "https://files.old-faithful.net/670/epoch-670.car");
                    assert_eq!((*threads, *window_bytes), (4, 1024));
                    assert!(client.is_none());
                }
                _ => panic!("a sequential stream"),
            }
            match plan.fall_back() {
                StreamPlan::Seekable { url } => {
                    assert_eq!(url, "https://files.old-faithful.net/670/epoch-670.car")
                }
                _ => panic!("a seekable stream"),
            }
        }
        Err(_) => panic!("a plan"),
    }
}

#[test]
fn sequential_streams_have_a_least_window() {
    match plan_stream(ArchivePlace::Url("u".to_string()), sequential(0, 0)) {
        StreamPlan::Sequential { threads, window_bytes, .. } => {
            assert_eq!((threads, window_bytes), (1, 2))
        }
        _ => panic!("a sequential stream"),
    }
    match plan_stream(ArchivePlace::Object("o".to_string()), sequential(3, 9)) {
        StreamPlan::S3 { path } => assert_eq!(path, "o"),
        _ => panic!("an object"),
    }
}

#[test]
fn an_archive_exists_where_it_can_be_had() {
    assert!(epoch_exists(HeadOutcome::Status(200)));
    assert!(epoch_exists(HeadOutcome::Status(299)));
    assert!(!epoch_exists(HeadOutcome::Status(199)));
    assert!(!epoch_exists(HeadOutcome::Status(301)));
    assert!(!epoch_exists(HeadOutcome::Status(404)));
    assert!(epoch_exists(HeadOutcome::Object));
    assert!(!epoch_exists(HeadOutcome::Failed));
}

#[test]
fn windowed_downloads_only_go_forward() {
    let mut reader = RipgetEpochReader::new(100);
    assert_eq!(reader.poll_complete(), 0);
    reader.poll_read(40);
    reader.poll_read(2);
    assert_eq!(reader.poll_complete(), 42);
    assert_eq!(reader.start_seek(SeekFrom::Current(0)), Ok(()));
    for from in [SeekFrom::Current(1), SeekFrom::Current(-1), SeekFrom::Start(42), SeekFrom::End(0)] {
        assert_eq!(reader.start_seek(from), Err(SeekError::Unsupported));
    }
    assert_eq!(SeekError::Unsupported.kind(), ErrorKind::Unsupported);
    assert_eq!(
        SeekError::Unsupported.text(),
        "seek is not supported for ripget windowed streams"
    );
    assert_eq!(reader.len(), 100);
    reader.poll_read(u64::MAX);
    assert_eq!(reader.poll_complete(), u64::MAX);
}

#[test]
fn a_stream_keeps_the_length_of_its_reader() {
    let stream = EpochStream::new(RipgetEpochReader::new(7));
    assert_eq!(stream.total_len, 7);
    assert_eq!(stream.len(), 7);
    assert!(!stream.is_empty());
    assert!(EpochStream::new(RipgetEpochReader::new(0)).is_empty());
}

#[test]
fn objects_are_opened_by_their_length() {
    assert_eq!(
        S3SeekableReader::new(Ok(Some(10))),
        Ok(S3SeekableReader { len: 10, position: 0, phase: S3Phase::Fetching })
    );
    assert_eq!(S3SeekableReader::new(Ok(None)), Err(S3OpenError::MissingLength));
    assert_eq!(S3OpenError::MissingLength.text(), "S3 object missing length");
    let failed = S3SeekableReader::new(Err("denied".to_string())).unwrap_err();
    assert_eq!(failed, S3OpenError::Head("denied".to_string()));
    assert_eq!(failed.text(), "denied");
    assert_eq!(S3SeekableReader::new(Ok(Some(-1))).unwrap().len(), u64::MAX);
    assert_eq!(S3SeekableReader::new(Ok(Some(i64::MIN))).unwrap().len(), 1 << 63);
}

#[test]
fn objects_are_fetched_up_to_their_end() {
    let range = |position: u64, len: u64| {
        S3SeekableReader { len, position, phase: S3Phase::Idle }.schedule_fetch()
    };
    assert_eq!(range(0, 10), "bytes=0-9");
    assert_eq!(range(7, 10), "bytes=7-9");
    assert_eq!(range(10, 10), "bytes=9-9");
    assert_eq!(range(12, 10), "bytes=9-9");
    assert_eq!(range(0, 0), "bytes=0-0");
}

#[test]
fn objects_are_read_in_order() {
    let object: Vec<u8> = (0..50).collect();
    let mut reader = S3SeekableReader::new(Ok(Some(50))).unwrap();
    let mut out: Vec<u8> = Vec::new();
    let mut body = 0usize;
    let mut failed_fetches = 0;
    let mut moved = false;
    loop {
        let mut action = reader.poll_read(S3Event::Poll);
        let before = out.len();
        loop {
            action = match action {
                S3Action::Fetch | S3Action::AwaitFetch => {
                    if failed_fetches < 2 {
                        failed_fetches += 1;
                        reader.poll_read(S3Event::FetchFailed("timeout".to_string()))
                    } else {
                        body = reader.position as usize;
                        reader.poll_read(S3Event::Fetched)
                    }
                }
                S3Action::ReadBody => {
                    let read = (object.len() - body).min(8);
                    out.extend_from_slice(&object[body..body + read]);
                    body += read;
                    reader.poll_read(S3Event::Body(read as u64))
                }
                S3Action::Fail(message) => {
                    assert_eq!(message, "timeout");
                    assert_eq!(reader.phase, S3Phase::Idle);
                    reader.poll_read(S3Event::Poll)
                }
                S3Action::Ready => break,
            };
        }
        if out.len() == before {
            break;
        }
        if out.len() == 16 && !moved {
            moved = true;
            assert_eq!(reader.start_seek(SeekFrom::End(-20)), Ok(()));
            assert_eq!(reader.poll_complete(), 30);
            out.clear();
        }
    }
    assert_eq!(out, object[30..]);
    assert_eq!(reader.poll_complete(), 50);
    assert_eq!(failed_fetches, 2);
}

#[test]
fn objects_are_not_left() {
    let mut reader = S3SeekableReader::new(Ok(Some(50))).unwrap();
    assert_eq!(reader.start_seek(SeekFrom::Start(80)), Ok(()));
    assert_eq!(reader.position, 50);
    assert_eq!(reader.start_seek(SeekFrom::Current(-60)), Err(SeekError::Negative));
    assert_eq!(reader.start_seek(SeekFrom::End(-51)), Err(SeekError::Negative));
    assert_eq!(reader.position, 50);
    assert_eq!(SeekError::Negative.kind(), ErrorKind::InvalidInput);
    assert_eq!(SeekError::Negative.text(), "negative seek");
    assert_eq!(reader.poll_read(S3Event::Poll), S3Action::Ready);
    assert_eq!(reader.start_seek(SeekFrom::Current(-1)), Ok(()));
    assert_eq!(reader.position, 49);
    assert_eq!(reader.poll_read(S3Event::Fetched), S3Action::ReadBody);
    assert_eq!(
        reader.poll_read(S3Event::BodyFailed("reset".to_string())),
        S3Action::Fail("reset".to_string())
    );
    assert_eq!(reader.phase, S3Phase::Reading);
}

#[test]
fn a_block_time_is_a_timestamp() {
    let reply = |result: Option<BlockResult>, error: Option<&str>| {
        RpcReply::Decoded(RpcResponse { result, error: error.map(|e| e.to_string()) })
    };
    let timed = Some(BlockResult { block_time: Some(1713000000) });
    assert_eq!(get_slot_timestamp(reply(timed, None)), Ok(1713000000));
    assert_eq!(
        get_slot_timestamp(reply(timed, Some("Object {}"))),
        Err(SlotTimestampError::Rpc(Some("Object {}".to_string())))
    );
    assert_eq!(
        get_slot_timestamp(reply(Some(BlockResult { block_time: None }), None)),
        Err(SlotTimestampError::NoBlockTime)
    );
    assert_eq!(get_slot_timestamp(reply(None, None)), Err(SlotTimestampError::NoBlockTime));
    assert_eq!(
        get_slot_timestamp(RpcReply::Unreachable("refused".to_string())),
        Err(SlotTimestampError::Transport("refused".to_string()))
    );
    assert_eq!(
        get_slot_timestamp(RpcReply::Undecodable("EOF".to_string())),
        Err(SlotTimestampError::Decode("EOF".to_string()))
    );
}

#[test]
fn a_block_is_asked_for_by_its_slot() {
    assert_eq!(
        slot_request(246446651),
        "{\"id\":1,\"jsonrpc\":\"2.0\",\"method\":\"getBlock\",\"params\":[246446651,{\"maxSupportedTransactionVersion\":0}]}"
    );
    let request: serde_json::Value = serde_json::from_str(&slot_request(u64::MAX)).unwrap();
    assert_eq!(request.as_object().unwrap().len(), 4);
    assert_eq!(request["jsonrpc"], "2.0");
    assert_eq!(request["id"], 1);
    assert_eq!(request["method"], "getBlock");
    assert_eq!(request["params"].as_array().unwrap().len(), 2);
    assert_eq!(request["params"][0], u64::MAX);
    assert_eq!(request["params"][1].as_object().unwrap().len(), 1);
    assert_eq!(request["params"][1]["maxSupportedTransactionVersion"], 0);
}

#[test]
fn timestamp_errors_have_messages() {
    assert_eq!(
        SlotTimestampError::Transport("refused".to_string()).text(),
        "RPC transport error: refused"
    );
    assert_eq!(SlotTimestampError::Decode("EOF".to_string()).text(), "RPC decode error: EOF");
    assert_eq!(
        SlotTimestampError::Rpc(Some("Number(7)".to_string())).text(),
        format!("RPC error: {:?}", Some(serde_json::Value::from(7)))
    );
    assert_eq!(SlotTimestampError::Rpc(None).text(), "RPC error: None");
    assert_eq!(
        SlotTimestampError::NoBlockTime.text(),
        "No blockTime found in getBlock result"
    );
}
