//! A sink: accepts every message and emits nothing.
use vstd::prelude::*;
use crate::device::{Datum, Device, DeviceError, Record};

verus! {

pub const CLASS_TRIGGER: &'static str = "trigger";

/// A device that emits nothing: the end of a route.
#[derive(Debug)]
pub struct Trigger {
    pub id: String,
    pub class: String,
}

impl Trigger {
    pub fn new(id: &str) -> (trigger: Self)
        ensures
            trigger.id@ == id@,
            trigger.class@ == CLASS_TRIGGER@,
    {
        Trigger { id: id.to_owned(), class: CLASS_TRIGGER.to_owned() }
    }
}

impl Device for Trigger {
    fn get_id(&self) -> (id: &str)
        ensures
            id@ == self.id@,
    {
        self.id.as_str()
    }

    fn get_class(&self) -> (class: &str)
        ensures
            class@ == self.class@,
    {
        self.class.as_str()
    }

    fn destroy(&mut self)
        ensures
            *final(self) == *old(self),
    {
    }

    fn serialize(&self) -> (record: Result<Record, DeviceError>)
        ensures
            record matches Ok(r) && r.id@ == self.id@ && r.class@ == self.class@ && r.fields@.len()
                == 0,
    {
        Ok(Record { id: self.id.clone(), class: self.class.clone(), fields: Vec::new() })
    }

    fn init(&mut self) -> (done: Result<(), DeviceError>)
        ensures
            done is Ok,
            *final(self) == *old(self),
    {
        Ok(())
    }

    fn get_data(&mut self, key: String) -> (data: Result<Option<Datum>, String>)
        ensures
            data == Ok::<Option<Datum>, String>(None),
            *final(self) == *old(self),
    {
        Ok(None)
    }

    fn set_data(&mut self, key: String, data: Datum) -> (done: Result<(), String>)
        ensures
            done is Ok,
            *final(self) == *old(self),
    {
        Ok(())
    }

    fn delete_data(&mut self, key: String) -> (done: Result<(), String>)
        ensures
            done is Ok,
            *final(self) == *old(self),
    {
        Ok(())
    }

    fn process(
        &mut self,
        bytes: &Vec<u8>,
        from: &str,
        to: &str,
        from_port: &str,
        to_port: &str,
    ) -> (out: Vec<(String, Vec<u8>)>)
        ensures
            out@.len() == 0,
            *final(self) == *old(self),
    {
        Vec::new()
    }
}

} // verus!
