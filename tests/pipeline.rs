use date_schema::builder::MessageBuilder;
use date_schema::date::{Builder, Pipeline as DatePipeline};
use date_schema::pipeline::{Call, Pipeline};
use date_schema::pointer::{Error, StructSize};

fn result_with_date(year: i16) -> MessageBuilder {
    let mut msg = MessageBuilder::new();
    {
        let mut root = msg.init_root(StructSize { data: 0, pointers: 2 }).unwrap();
        let mut d = Builder::init_pointer(&mut root, 0).unwrap();
        d.set_year(year);
    }
    msg
}

#[test]
fn pipeline_field_resolves_after_call() {
    let msg = result_with_date(1999);
    let mut call = Call::new(42);
    let date = DatePipeline::new(call.pipeline().get_pointer_field(0));
    assert!(date.get(&call).is_none());
    call.resolve(msg.get_root_as_reader(64).unwrap()).unwrap();
    let d = date.get(&call).unwrap().unwrap();
    assert_eq!(d.get_year(), 1999);
}

#[test]
fn child_pipeline_extends_path() {
    let p = Pipeline::new(7);
    let c = p.get_pointer_field(3).get_pointer_field(1);
    assert_eq!(c.call, 7);
    assert_eq!(c.path, vec![3, 1]);
    assert!(p.path.is_empty());
}

#[test]
fn resolve_keeps_first_result() {
    let first = result_with_date(1999);
    let second = result_with_date(2024);
    let mut call = Call::new(1);
    let date = DatePipeline::new(call.pipeline().get_pointer_field(0));
    let a = call.resolve(first.get_root_as_reader(64).unwrap()).unwrap();
    let b = call.resolve(second.get_root_as_reader(64).unwrap()).unwrap();
    assert_eq!(a.loc, b.loc);
    assert!(std::ptr::eq(a.segments, b.segments));
    assert_eq!(date.get(&call).unwrap().unwrap().get_year(), 1999);
}

#[test]
fn null_field_in_path_is_path_not_found() {
    let msg = result_with_date(1999);
    let mut call = Call::new(3);
    call.resolve(msg.get_root_as_reader(64).unwrap()).unwrap();
    let missing = call.pipeline().get_pointer_field(1);
    assert_eq!(call.get(&missing).unwrap().err(), Some(Error::PathNotFound));
    let past_end = call.pipeline().get_pointer_field(9);
    assert_eq!(call.get(&past_end).unwrap().err(), Some(Error::PathNotFound));
    let through_date = call.pipeline().get_pointer_field(0).get_pointer_field(0);
    assert_eq!(call.get(&through_date).unwrap().err(), Some(Error::PathNotFound));
}

#[test]
fn pipeline_of_other_call_gives_nothing() {
    let msg = result_with_date(1999);
    let mut call = Call::new(3);
    call.resolve(msg.get_root_as_reader(64).unwrap()).unwrap();
    let other = Pipeline::new(4).get_pointer_field(0);
    assert!(call.get(&other).is_none());
}

#[test]
fn failed_call_fails_every_pipeline() {
    let msg = result_with_date(1999);
    let mut call = Call::new(8);
    let date = DatePipeline::new(call.pipeline().get_pointer_field(0));
    assert_eq!(call.fail(Error::BoundsViolation).err(), Some(Error::BoundsViolation));
    assert_eq!(date.get(&call).unwrap().err(), Some(Error::BoundsViolation));
    assert_eq!(call.get(&call.pipeline()).unwrap().err(), Some(Error::BoundsViolation));
    // a later result does not replace the failure
    assert_eq!(call.resolve(msg.get_root_as_reader(64).unwrap()).err(), Some(Error::BoundsViolation));
}

#[test]
fn resolved_call_ignores_later_failure() {
    let msg = result_with_date(1999);
    let mut call = Call::new(9);
    call.resolve(msg.get_root_as_reader(64).unwrap()).unwrap();
    assert!(call.fail(Error::PathNotFound).is_ok());
    let date = DatePipeline::new(call.pipeline().get_pointer_field(0));
    assert_eq!(date.get(&call).unwrap().unwrap().get_year(), 1999);
}
