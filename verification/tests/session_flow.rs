use tdswire::frame::unframe_message;
use tdswire::handshake::SessionEnv;
use tdswire::request::{encode_request, Param, ParamDirection, Statement};
use tdswire::session::{Session, SessionError, SessionState, StreamItem};
use tdswire::tokens::{encode_token, ColumnDesc, Token};
use tdswire::value::{Value, WireType};

fn env() -> SessionEnv {
    SessionEnv { database: b"FakeAdventureWorks".to_vec(), server_version: 1 }
}

fn select_statement() -> Statement {
    Statement::rpc(
        b"select SalesOrderID from dbo.SalesOrderHeader where SalesOrderID = @P1".to_vec(),
        vec![Param {
            name: b"P1".to_vec(),
            value: Value::Int(1),
            direction: ParamDirection::Input,
        }],
    )
}

fn int_cols(name: &[u8]) -> Vec<ColumnDesc> {
    vec![ColumnDesc { name: name.to_vec(), ty: WireType::Int, nullable: false }]
}

/// Encode a whole response: tokens concatenated into one payload.
fn response(tokens: &[Token]) -> Vec<u8> {
    let mut out: Vec<u8> = Vec::new();
    for t in tokens {
        encode_token(&mut out, t).unwrap();
    }
    out
}

#[test]
fn submit_produces_the_framed_request() {
    let mut s = Session::open(env());
    let st = select_statement();
    let framed = s.submit(&st).unwrap();
    let (_, payload, used) = unframe_message(&framed).unwrap();
    assert_eq!(used, framed.len());
    assert_eq!(payload, encode_request(&st).unwrap());
    assert_eq!(s.current_state(), SessionState::InFlight);
}

#[test]
fn second_submit_before_draining_is_busy_and_sends_nothing() {
    let mut s = Session::open(env());
    let st = select_statement();
    let _ = s.submit(&st).unwrap();
    // The response is not drained: a second request is a misuse error
    // and produces no bytes to write.
    assert_eq!(s.submit(&st), Err(SessionError::Busy));
    assert_eq!(s.current_state(), SessionState::InFlight);
}

#[test]
fn rows_carry_their_result_set_index() {
    let mut s = Session::open(env());
    let _ = s.submit(&Statement::batch(b"exec dbo.uspGetSaleOrderByID 2".to_vec())).unwrap();
    // Three result sets: two with one row each, one with two rows.
    let bytes = response(&[
        Token::ColMeta(int_cols(b"SalesOrderID")),
        Token::Row(vec![Value::Int(10)]),
        Token::ColMeta(int_cols(b"Status")),
        Token::Row(vec![Value::Int(20)]),
        Token::Row(vec![Value::Int(21)]),
        Token::ColMeta(int_cols(b"ReturnCode")),
        Token::Row(vec![Value::Int(0)]),
        Token::Done { rows_affected: 0, return_code: None },
    ]);
    s.receive(&bytes).unwrap();

    let mut meta_indices: Vec<u64> = Vec::new();
    let mut row_indices: Vec<u64> = Vec::new();
    loop {
        match s.next_item().unwrap() {
            StreamItem::Meta { index } => meta_indices.push(index),
            StreamItem::Row { index, .. } => row_indices.push(index),
            StreamItem::Done { .. } => break,
            other => panic!("unexpected item: {:?}", other),
        }
    }
    // Result sets are numbered 0..K-1 in arrival order; each row
    // carries the index of the set it belongs to, non-decreasing.
    assert_eq!(meta_indices, vec![0, 1, 2]);
    assert_eq!(row_indices, vec![0, 1, 1, 2]);
    assert_eq!(s.current_state(), SessionState::Ready);
}

#[test]
fn server_error_fails_statement_but_not_session() {
    let mut s = Session::open(env());
    let _ = s.submit(&select_statement()).unwrap();
    let bytes = response(&[
        Token::ColMeta(int_cols(b"SalesOrderID")),
        Token::Row(vec![Value::Int(1)]),
        Token::Error { severity: 16, line: 3, message: b"The status 16 is not valid.".to_vec() },
        Token::Done { rows_affected: 0, return_code: Some(-2) },
    ]);
    s.receive(&bytes).unwrap();

    assert!(matches!(s.next_item().unwrap(), StreamItem::Meta { index: 0 }));
    assert!(matches!(s.next_item().unwrap(), StreamItem::Row { index: 0, .. }));
    match s.next_item().unwrap() {
        StreamItem::ServerError { severity, line, message } => {
            assert_eq!(severity, 16);
            assert_eq!(line, 3);
            assert_eq!(message, b"The status 16 is not valid.".to_vec());
        },
        other => panic!("expected the server error, got {:?}", other),
    }
    match s.next_item().unwrap() {
        StreamItem::Done { rows_affected, return_code } => {
            assert_eq!(rows_affected, 0);
            assert_eq!(return_code, Some(-2));
        },
        other => panic!("expected completion, got {:?}", other),
    }

    // The session is usable again: a subsequent request succeeds.
    let framed = s.submit(&select_statement()).unwrap();
    assert!(!framed.is_empty());
    assert_eq!(s.current_state(), SessionState::InFlight);
}

#[test]
fn close_is_idempotent_and_operations_after_close_fail() {
    let mut s = Session::open(env());
    s.close();
    assert_eq!(s.current_state(), SessionState::Closed);
    s.close(); // a no-op the second time
    assert_eq!(s.current_state(), SessionState::Closed);
    assert_eq!(s.submit(&select_statement()), Err(SessionError::SessionClosed));
    assert_eq!(s.receive(&[1, 2, 3]), Err(SessionError::SessionClosed));
    assert_eq!(s.next_item(), Err(SessionError::SessionClosed));
}

#[test]
fn next_item_suspends_at_chunk_boundaries() {
    let mut s = Session::open(env());
    let _ = s.submit(&select_statement()).unwrap();
    let bytes = response(&[
        Token::ColMeta(int_cols(b"SalesOrderID")),
        Token::Row(vec![Value::Int(7)]),
        Token::Done { rows_affected: 0, return_code: None },
    ]);
    // Deliver byte by byte: the decoder reassembles across arbitrary
    // chunk boundaries.
    let mut items: Vec<StreamItem> = Vec::new();
    for b in &bytes {
        s.receive(std::slice::from_ref(b)).unwrap();
        loop {
            match s.next_item().unwrap() {
                StreamItem::NeedMore => break,
                item => {
                    let done = matches!(item, StreamItem::Done { .. });
                    items.push(item);
                    if done {
                        break;
                    }
                },
            }
        }
    }
    assert_eq!(items.len(), 3);
    assert!(matches!(items[0], StreamItem::Meta { index: 0 }));
    assert!(matches!(items[1], StreamItem::Row { index: 0, .. }));
    assert!(matches!(items[2], StreamItem::Done { .. }));
}

#[test]
fn output_parameter_comes_back_through_the_row_stream() {
    // A parameterised call with one output parameter: the server
    // returns its value as an ordinary result set, not on a separate
    // channel; the caller reads it back out of the row stream.
    let mut s = Session::open(env());
    let st = Statement::rpc(
        b"exec dbo.uspSaveOrderHeaderGetID @SalesOrderID = @P1 output".to_vec(),
        vec![Param {
            name: b"SalesOrderID".to_vec(),
            value: Value::Null(WireType::Int),
            direction: ParamDirection::Output,
        }],
    );
    let _ = s.submit(&st).unwrap();
    let bytes = response(&[
        Token::ColMeta(int_cols(b"SalesOrderID")),
        Token::Row(vec![Value::Int(4711)]),
        Token::Done { rows_affected: 1, return_code: Some(0) },
    ]);
    s.receive(&bytes).unwrap();

    assert!(matches!(s.next_item().unwrap(), StreamItem::Meta { index: 0 }));
    let output_value = match s.next_item().unwrap() {
        StreamItem::Row { cells, .. } => cells[0].as_int().unwrap(),
        other => panic!("expected the output row, got {:?}", other),
    };
    assert_eq!(output_value, 4711);
    match s.next_item().unwrap() {
        StreamItem::Done { return_code, .. } => assert_eq!(return_code, Some(0)),
        other => panic!("expected completion, got {:?}", other),
    }
}

#[test]
fn malformed_stream_closes_the_session() {
    let mut s = Session::open(env());
    let _ = s.submit(&select_statement()).unwrap();
    // A complete token with an unknown tag: the stream is
    // desynchronised and the session is closed for good.
    s.receive(&[0x55, 1, 0, 0, 0, 9]).unwrap();
    assert_eq!(s.next_item(), Err(SessionError::Protocol));
    assert_eq!(s.current_state(), SessionState::Closed);
    assert_eq!(s.submit(&select_statement()), Err(SessionError::SessionClosed));
}

#[test]
fn operations_without_a_request_are_refused() {
    let mut s = Session::open(env());
    assert_eq!(s.receive(&[1]), Err(SessionError::NoRequest));
    assert_eq!(s.next_item(), Err(SessionError::NoRequest));
    assert_eq!(s.current_state(), SessionState::Ready);
}

#[test]
fn invalid_statement_is_rejected_without_sending() {
    let mut s = Session::open(env());
    let st = Statement::rpc(
        b"exec p".to_vec(),
        vec![Param {
            name: b"P1".to_vec(),
            value: Value::Date(4000000), // beyond the last supported day
            direction: ParamDirection::Input,
        }],
    );
    assert_eq!(s.submit(&st), Err(SessionError::InvalidStatement));
    assert_eq!(s.current_state(), SessionState::Ready);
}

#[test]
fn columns_follow_the_current_result_set() {
    let mut s = Session::open(env());
    let _ = s.submit(&Statement::batch(b"select 1 select 2".to_vec())).unwrap();
    let bytes = response(&[
        Token::ColMeta(int_cols(b"a")),
        Token::ColMeta(int_cols(b"b")),
        Token::Done { rows_affected: 0, return_code: None },
    ]);
    s.receive(&bytes).unwrap();
    assert!(s.columns().is_none());
    let _ = s.next_item().unwrap();
    assert_eq!(s.columns().as_ref().unwrap()[0].name, b"a".to_vec());
    let _ = s.next_item().unwrap();
    assert_eq!(s.columns().as_ref().unwrap()[0].name, b"b".to_vec());
    let _ = s.next_item().unwrap();
    assert!(s.columns().is_none());
}
