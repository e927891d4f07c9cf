//! A tap: passes every message on unchanged.
use vstd::prelude::*;
use crate::device::{output, Datum, Device, DeviceError, Record};
use crate::globals::WILDCARD;

verus! {

pub const CLASS_MONITOR: &'static str = "monitor";

/// A device that returns its input unchanged on the wildcard port.
#[derive(Debug)]
pub struct Monitor {
    pub id: String,
    pub class: String,
}

impl Monitor {
    pub fn new(id: &str) -> (monitor: Self)
        ensures
            monitor.id@ == id@,
            monitor.class@ == CLASS_MONITOR@,
    {
        Monitor { id: id.to_owned(), class: CLASS_MONITOR.to_owned() }
    }
}

impl Device for Monitor {
    fn get_id(&self) -> (id: &str)
        ensures
            id@ == self.id@,
    {
        self.id.as_str()
    }

    fn get_class(&self) -> (class: &str)
        ensures
            class@ == self.class@,
    {
        self.class.as_str()
    }

    fn destroy(&mut self)
        ensures
            *final(self) == *old(self),
    {
    }

    fn serialize(&self) -> (record: Result<Record, DeviceError>)
        ensures
            record matches Ok(r) && r.id@ == self.id@ && r.class@ == self.class@ && r.fields@.len()
                == 0,
    {
        Ok(Record { id: self.id.clone(), class: self.class.clone(), fields: Vec::new() })
    }

    fn init(&mut self) -> (done: Result<(), DeviceError>)
        ensures
            done is Ok,
            *final(self) == *old(self),
    {
        Ok(())
    }

    fn get_data(&mut self, key: String) -> (data: Result<Option<Datum>, String>)
        ensures
            data == Ok::<Option<Datum>, String>(None),
            *final(self) == *old(self),
    {
        Ok(None)
    }

    fn set_data(&mut self, key: String, data: Datum) -> (done: Result<(), String>)
        ensures
            done is Ok,
            *final(self) == *old(self),
    {
        Ok(())
    }

    fn delete_data(&mut self, key: String) -> (done: Result<(), String>)
        ensures
            done is Ok,
            *final(self) == *old(self),
    {
        Ok(())
    }

    fn process(
        &mut self,
        bytes: &Vec<u8>,
        from: &str,
        to: &str,
        from_port: &str,
        to_port: &str,
    ) -> (out: Vec<(String, Vec<u8>)>)
        ensures
            out.deep_view() == seq![(WILDCARD@, bytes@)],
            *final(self) == *old(self),
    {
        let mut out: Vec<(String, Vec<u8>)> = Vec::new();
        out.push(output(WILDCARD, bytes.clone()));
        assert(out.deep_view() =~= seq![(WILDCARD@, bytes@)]);
        out
    }
}

} // verus!
