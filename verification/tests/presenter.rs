use hello_triangle::adapter::AdapterInfo;
use hello_triangle::adapter::QueueFamilyInfo;
use hello_triangle::ops::BackendOp;
use hello_triangle::presenter::FrameEvent;
use hello_triangle::presenter::HalState;
use hello_triangle::presenter::init_hal;
use hello_triangle::MAX_FRAMES_IN_FLIGHT;

fn good_adapter() -> AdapterInfo {
    AdapterInfo {
        queue_families: vec![QueueFamilyInfo {
            max_queues: 1,
            supports_graphics: true,
            supports_surface: true,
        }],
    }
}

fn fresh_state(image_count: usize, frames_in_flight: usize) -> HalState {
    let adapters = vec![good_adapter()];
    init_hal(&adapters, &None, image_count, frames_in_flight).expect("setup must succeed")
}

struct SubmitCall {
    command_buffer: usize,
    wait_image_available_slot: usize,
    signal_render_finished_slot: usize,
    fence_slot: usize,
}

fn acquires(log: &[BackendOp]) -> Vec<(usize, usize)> {
    let mut out = Vec::new();
    for op in log {
        if let BackendOp::AcquireImage { image_available_slot, image } = op {
            out.push((*image_available_slot, *image));
        }
    }
    out
}

fn submits(log: &[BackendOp]) -> Vec<SubmitCall> {
    let mut out = Vec::new();
    for op in log {
        if let BackendOp::Submit {
            command_buffer,
            wait_image_available_slot,
            signal_render_finished_slot,
            fence_slot,
        } = op
        {
            out.push(SubmitCall {
                command_buffer: *command_buffer,
                wait_image_available_slot: *wait_image_available_slot,
                signal_render_finished_slot: *signal_render_finished_slot,
                fence_slot: *fence_slot,
            });
        }
    }
    out
}

fn presents(log: &[BackendOp]) -> Vec<(usize, usize)> {
    let mut out = Vec::new();
    for op in log {
        if let BackendOp::Present { image, wait_render_finished_slot } = op {
            out.push((*image, *wait_render_finished_slot));
        }
    }
    out
}

#[test]
fn default_frames_in_flight_is_two() {
    assert_eq!(MAX_FRAMES_IN_FLIGHT, 2);
}

#[test]
fn five_ticks_on_three_image_swapchain() {
    // Two frames in flight, three swapchain images, five ticks.
    let mut st = fresh_state(3, MAX_FRAMES_IN_FLIGHT);
    let order = [0usize, 1, 2, 0, 1];
    let events: Vec<FrameEvent> =
        order.iter().map(|&acquired_image| FrameEvent::Tick { acquired_image }).collect();
    let ticks = st.main_loop(&events);
    assert_eq!(ticks, 5);

    let log = &st.backend.log;
    let acq = acquires(log);
    let sub = submits(log);
    let pre = presents(log);
    assert_eq!(acq.len(), 5);
    assert_eq!(sub.len(), 5);
    assert_eq!(pre.len(), 5);
    for tick in 0..5 {
        let slot = tick % 2;
        assert_eq!(acq[tick], (slot, order[tick]));
        assert_eq!(sub[tick].fence_slot, slot);
        assert_eq!(sub[tick].wait_image_available_slot, slot);
        assert_eq!(sub[tick].signal_render_finished_slot, slot);
        assert_eq!(sub[tick].command_buffer, order[tick]);
        // The present waits on the render-finished semaphore of the same
        // slot the submit used.
        assert_eq!(pre[tick], (order[tick], slot));
    }
}

#[test]
fn command_buffer_follows_acquired_image_not_slot() {
    // The presentation engine hands images back out of step with the
    // frame slots: acquire order 1,0,1,0 while the slots go 0,1,0,1.
    let mut st = fresh_state(2, 2);
    let order = [1usize, 0, 1, 0];
    let events: Vec<FrameEvent> =
        order.iter().map(|&acquired_image| FrameEvent::Tick { acquired_image }).collect();
    st.main_loop(&events);
    let sub = submits(&st.backend.log);
    assert_eq!(sub.len(), 4);
    for tick in 0..4 {
        assert_eq!(sub[tick].command_buffer, order[tick]);
        assert_eq!(sub[tick].fence_slot, tick % 2);
        // On every tick of this run the two index spaces disagree.
        assert_ne!(sub[tick].command_buffer, sub[tick].fence_slot);
    }

    // And the aligned order still submits the matching buffer.
    let mut st2 = fresh_state(2, 2);
    let order2 = [0usize, 1, 0, 1];
    let events2: Vec<FrameEvent> =
        order2.iter().map(|&acquired_image| FrameEvent::Tick { acquired_image }).collect();
    st2.main_loop(&events2);
    let sub2 = submits(&st2.backend.log);
    for tick in 0..4 {
        assert_eq!(sub2[tick].command_buffer, order2[tick]);
    }
}

#[test]
fn tick_records_the_five_calls_in_order() {
    let mut st = fresh_state(3, 2);
    let before = st.backend.log.len();
    st.draw_frame(2);
    let tail = &st.backend.log[before..];
    assert_eq!(
        tail,
        &[
            BackendOp::WaitForFence { slot: 0 },
            BackendOp::ResetFence { slot: 0 },
            BackendOp::AcquireImage { image_available_slot: 0, image: 2 },
            BackendOp::Submit {
                command_buffer: 2,
                wait_image_available_slot: 0,
                signal_render_finished_slot: 0,
                fence_slot: 0,
            },
            BackendOp::Present { image: 2, wait_render_finished_slot: 0 },
        ]
    );
    assert_eq!(st.current_frame, 1);
}

#[test]
fn bounded_in_flight_over_a_long_run() {
    // Replay the log and check that at no instant more submissions are
    // outstanding than there are frame slots.
    let n = 2usize;
    let mut st = fresh_state(3, n);
    let events: Vec<FrameEvent> =
        (0..20).map(|t| FrameEvent::Tick { acquired_image: t % 3 }).collect();
    st.main_loop(&events);

    let mut in_flight = vec![false; n];
    for op in &st.backend.log {
        match op {
            BackendOp::Submit { fence_slot, .. } => {
                assert!(!in_flight[*fence_slot], "fence reused while still in flight");
                in_flight[*fence_slot] = true;
            }
            BackendOp::WaitForFence { slot } => {
                in_flight[*slot] = false;
            }
            BackendOp::WaitIdle => {
                for f in in_flight.iter_mut() {
                    *f = false;
                }
            }
            _ => {}
        }
        let outstanding = in_flight.iter().filter(|f| **f).count();
        assert!(outstanding <= n);
    }
}

#[test]
fn fence_waited_and_reset_between_submissions() {
    let mut st = fresh_state(2, 2);
    let events: Vec<FrameEvent> =
        (0..6).map(|t| FrameEvent::Tick { acquired_image: t % 2 }).collect();
    st.main_loop(&events);

    let log = &st.backend.log;
    for slot in 0..2usize {
        let submit_positions: Vec<usize> = log
            .iter()
            .enumerate()
            .filter(|(_, op)| matches!(op, BackendOp::Submit { fence_slot, .. } if *fence_slot == slot))
            .map(|(k, _)| k)
            .collect();
        for pair in submit_positions.windows(2) {
            let between = &log[pair[0] + 1..pair[1]];
            let wait_at = between
                .iter()
                .position(|op| matches!(op, BackendOp::WaitForFence { slot: s } if *s == slot))
                .expect("a wait must stand between two submissions of one slot");
            let reset_at = between
                .iter()
                .position(|op| matches!(op, BackendOp::ResetFence { slot: s } if *s == slot))
                .expect("a reset must stand between two submissions of one slot");
            assert!(wait_at < reset_at);
        }
    }
}

#[test]
fn close_request_stops_the_loop_and_waits_idle() {
    let mut st = fresh_state(3, 2);
    let events = vec![
        FrameEvent::Tick { acquired_image: 0 },
        FrameEvent::Tick { acquired_image: 1 },
        FrameEvent::CloseRequested,
        FrameEvent::Tick { acquired_image: 2 },
    ];
    let ticks = st.main_loop(&events);
    assert_eq!(ticks, 2);
    assert!(st.closed);
    assert_eq!(st.backend.log.last(), Some(&BackendOp::WaitIdle));
    // The tick after the close request was not processed.
    assert_eq!(acquires(&st.backend.log).len(), 2);
}

#[test]
fn loop_without_close_stays_open() {
    let mut st = fresh_state(3, 2);
    let events = vec![
        FrameEvent::Tick { acquired_image: 0 },
        FrameEvent::Tick { acquired_image: 1 },
        FrameEvent::Tick { acquired_image: 2 },
    ];
    let ticks = st.main_loop(&events);
    assert_eq!(ticks, 3);
    assert!(!st.closed);
    assert_eq!(st.backend.log.iter().filter(|op| matches!(op, BackendOp::WaitIdle)).count(), 0);
}

#[test]
fn empty_event_list_does_nothing() {
    let mut st = fresh_state(2, 2);
    let before = st.backend.log.len();
    let ticks = st.main_loop(&Vec::new());
    assert_eq!(ticks, 0);
    assert!(!st.closed);
    assert_eq!(st.backend.log.len(), before);
    assert_eq!(st.current_frame, 0);
}

#[test]
fn immediate_close_only_waits_idle() {
    let mut st = fresh_state(2, 2);
    let before = st.backend.log.len();
    let ticks = st.main_loop(&vec![FrameEvent::CloseRequested]);
    assert_eq!(ticks, 0);
    assert!(st.closed);
    assert_eq!(st.backend.log.len(), before + 1);
    assert_eq!(st.backend.log.last(), Some(&BackendOp::WaitIdle));
}

#[test]
fn single_slot_single_image_presenter() {
    let mut st = fresh_state(1, 1);
    let events: Vec<FrameEvent> = (0..3).map(|_| FrameEvent::Tick { acquired_image: 0 }).collect();
    let ticks = st.main_loop(&events);
    assert_eq!(ticks, 3);
    for call in submits(&st.backend.log) {
        assert_eq!(call.fence_slot, 0);
        assert_eq!(call.command_buffer, 0);
    }
    assert_eq!(st.current_frame, 0);
}
