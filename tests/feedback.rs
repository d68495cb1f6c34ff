use frida_asan::errors::{AsanError, AsanErrors};
use frida_asan::observer::{AsanErrorsFeedback, AsanErrorsObserver};
use frida_asan::packet_len::{PacketLenFavFactor, PacketLenFeedback, PacketLenMetadata};
use frida_asan::runtime::{AsanOptions, AsanRuntime};
use frida_asan::stages::{Stage, StageError, StagesTuple};

fn unallocated(addr: usize) -> AsanError {
    let mut rt = AsanRuntime::new(AsanOptions { enable_asan_allocation_backtraces: true, asan_continue_after_error: true });
    let mut alloc = rt.new_allocator(4096, 46, true);
    rt.hook_free(&mut alloc, addr);
    rt.errors().as_slice()[0].duplicate()
}

#[test]
fn feedback_keeps_errors_of_a_failing_run() {
    let mut errors = AsanErrors::new();
    errors.push(unallocated(0x1000));
    errors.push(unallocated(0x2000));
    let observer = AsanErrorsObserver::new_owned(Some(errors));
    let mut feedback = AsanErrorsFeedback::new();
    assert!(feedback.is_interesting(&observer));
    let attached = feedback.append_metadata().unwrap();
    assert_eq!(attached.len(), 2);
    assert!(matches!(&attached.as_slice()[1], AsanError::UnallocatedFree((a, _)) if *a == 0x2000));
    feedback.discard_metadata();
    assert!(feedback.append_metadata().is_none());
    assert_eq!(feedback.name(), "AsanErrors");
}

#[test]
fn feedback_ignores_clean_runs() {
    let mut feedback = AsanErrorsFeedback::default();
    assert!(!feedback.is_interesting(&AsanErrorsObserver::new_owned(Some(AsanErrors::new()))));
    assert!(!feedback.is_interesting(&AsanErrorsObserver::new_owned(None)));
    assert!(feedback.append_metadata().is_none());
}

#[test]
fn observer_clears_the_runtime_before_a_run() {
    let mut rt = AsanRuntime::new(AsanOptions { enable_asan_allocation_backtraces: false, asan_continue_after_error: false });
    let mut alloc = rt.new_allocator(4096, 46, true);
    rt.hook_free(&mut alloc, 0x1000);
    assert_eq!(rt.errors().len(), 1);
    let observer = AsanErrorsObserver::new_owned(None);
    observer.pre_exec(&mut rt);
    assert!(rt.errors().is_empty());
    assert!(observer.errors().is_none());
    assert_eq!(observer.name(), "AsanErrors");
    assert!(!rt.options().asan_continue_after_error);
}

#[test]
fn error_descriptions() {
    let e = unallocated(0x3000);
    assert_eq!(e.description(), "unallocated-free");
}

#[test]
fn packet_length_feedback_records_the_length() {
    let mut feedback = PacketLenFeedback::new();
    assert!(!feedback.is_interesting(42));
    assert_eq!(feedback.append_metadata(), PacketLenMetadata { length: 42 });
    feedback.discard_metadata();
    assert_eq!(feedback.append_metadata().length, 42);
    assert_eq!(feedback.name(), "PacketLenFeedback");
    assert_eq!(PacketLenFeedback::default().append_metadata().length, 0);
}

#[test]
fn packet_length_factor() {
    let m = PacketLenMetadata { length: 7 };
    assert_eq!(PacketLenFavFactor::compute(Some(&m)), 7);
    assert_eq!(PacketLenFavFactor::compute(None), 1);
}

struct Count {
    fail: bool,
}

impl Stage<(), (), (), (), u32> for Count {
    fn perform(
        &mut self,
        state: &mut u32,
        _executor: &mut (),
        _manager: &mut (),
        _scheduler: &(),
        corpus_idx: usize,
    ) -> Result<(), StageError> {
        if self.fail {
            return Err(StageError { message: format!("entry {}", corpus_idx) });
        }
        *state += 1;
        Ok(())
    }
}

#[test]
fn stages_run_in_order_until_one_fails() {
    let mut state = 0u32;
    let mut stages = (Count { fail: false }, (Count { fail: false }, ()));
    assert!(stages.perform_all(&mut state, &mut (), &mut (), &(), 3).is_ok());
    assert_eq!(state, 2);
    let mut failing = (Count { fail: false }, (Count { fail: true }, (Count { fail: false }, ())));
    let r = failing.perform_all(&mut state, &mut (), &mut (), &(), 5);
    assert_eq!(r.unwrap_err().message, "entry 5");
    assert_eq!(state, 3);
}
