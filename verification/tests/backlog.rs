use ringkv::backlog::{after_flush, after_wait, Backlog, Control, IoStatus, Request};

fn poll(n: i32) -> Request {
    Request::PollAdd { fd: n, user_data: n as u64 }
}

#[test]
fn empty_backlog_drains_nothing() {
    let mut backlog = Backlog::new();
    assert_eq!(backlog.len(), 0);
    assert_eq!(backlog.drain(10), vec![]);
    assert_eq!(backlog.drain(0), vec![]);
}

#[test]
fn drain_is_first_in_first_out() {
    let mut backlog = Backlog::new();
    for n in 0..5 {
        backlog.defer(poll(n));
    }
    assert_eq!(backlog.len(), 5);
    assert_eq!(backlog.drain(2), vec![poll(0), poll(1)]);
    assert_eq!(backlog.len(), 3);
    backlog.defer(poll(9));
    assert_eq!(backlog.drain(10), vec![poll(2), poll(3), poll(4), poll(9)]);
    assert_eq!(backlog.len(), 0);
}

#[test]
fn drain_without_room_leaves_the_backlog() {
    let mut backlog = Backlog::new();
    backlog.defer(Request::Accept { user_data: 0 });
    backlog.defer(Request::Recv { fd: 3, buf_index: 1, len: 4, user_data: 2 });
    assert_eq!(backlog.drain(0), vec![]);
    assert_eq!(backlog.len(), 2);
    assert_eq!(backlog.drain(1), vec![Request::Accept { user_data: 0 }]);
    assert_eq!(
        backlog.drain(1),
        vec![Request::Recv { fd: 3, buf_index: 1, len: 4, user_data: 2 }]
    );
}

#[test]
fn wait_goes_on_when_done_or_busy() {
    assert_eq!(after_wait(IoStatus::Done), Control::Proceed);
    assert_eq!(after_wait(IoStatus::Busy), Control::Proceed);
    assert_eq!(after_wait(IoStatus::Failed), Control::Fatal);
}

#[test]
fn flush_stops_draining_when_busy() {
    assert_eq!(after_flush(IoStatus::Done), Control::Proceed);
    assert_eq!(after_flush(IoStatus::Busy), Control::Stop);
    assert_eq!(after_flush(IoStatus::Failed), Control::Fatal);
}
