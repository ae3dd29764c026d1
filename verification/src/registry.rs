//! The printer registry: every printer found at startup, keyed by its serial
//! number, in a fixed enumeration order.

use vstd::prelude::*;

verus! {

/// Identity of one attached printer, as the driver reports it.
pub struct PrinterInfo {
    pub manufacturer: String,
    pub model: String,
    pub serial_number: String,
}

/// Mathematical image of a `PrinterInfo`.
pub ghost struct PrinterModel {
    pub manufacturer: Seq<char>,
    pub model: Seq<char>,
    pub serial_number: Seq<char>,
}

impl View for PrinterInfo {
    type V = PrinterModel;

    open spec fn view(&self) -> PrinterModel {
        PrinterModel {
            manufacturer: self.manufacturer@,
            model: self.model@,
            serial_number: self.serial_number@,
        }
    }
}

impl PrinterInfo {
    /// An explicit copy; a derived clone would say nothing about the fields.
    pub fn duplicate(&self) -> (r: PrinterInfo)
        ensures
            r@ == self@,
    {
        PrinterInfo {
            manufacturer: self.manufacturer.clone(),
            model: self.model.clone(),
            serial_number: self.serial_number.clone(),
        }
    }
}

/// Why a registry could not be built.
#[derive(PartialEq, Eq, Structural, Debug, Clone, Copy)]
pub enum RegistryError {
    /// No printer was detected: the kiosk cannot serve any job.
    NoPrinters,
    /// Two detected printers reported the same serial number.
    DuplicateSerial,
}

/// The serial numbers of a sequence of printers, in the same order.
pub open spec fn serials_of(printers: Seq<PrinterModel>) -> Seq<Seq<char>> {
    printers.map_values(|p: PrinterModel| p.serial_number)
}

/// No two entries share a serial number.
pub open spec fn unique_serials(printers: Seq<PrinterModel>) -> bool {
    forall|i: int, j: int|
        0 <= i < j < printers.len() ==> printers[i].serial_number != printers[j].serial_number
}

/// The printers found at startup. Built once; read-only afterwards. It is
/// never empty and no serial number repeats, so a serial identifies exactly
/// one printer and the round-robin index is well defined.
pub struct PrinterRegistry {
    printers: Vec<PrinterInfo>,
}

impl View for PrinterRegistry {
    type V = Seq<PrinterModel>;

    closed spec fn view(&self) -> Seq<PrinterModel> {
        self.printers@.map_values(|p: PrinterInfo| p@)
    }
}

impl PrinterRegistry {
    /// A registry is non-empty with pairwise distinct serial numbers.
    pub open spec fn wf(&self) -> bool {
        &&& self@.len() > 0
        &&& unique_serials(self@)
    }

    /// Some entry carries this serial number.
    pub open spec fn has_serial(&self, serial: Seq<char>) -> bool {
        exists|i: int| 0 <= i < self@.len() && self@[i].serial_number == serial
    }

    /// Build the registry from the printers the driver enumerated.
    /// An empty enumeration or a repeated serial number is a fatal
    /// configuration error, reported rather than recovered from.
    pub fn new(printers: Vec<PrinterInfo>) -> (r: Result<PrinterRegistry, RegistryError>)
        ensures
            match r {
                Ok(reg) => {
                    &&& reg@ == printers@.map_values(|p: PrinterInfo| p@)
                    &&& reg.wf()
                },
                Err(RegistryError::NoPrinters) => printers@.len() == 0,
                Err(RegistryError::DuplicateSerial) => {
                    &&& printers@.len() > 0
                    &&& !unique_serials(printers@.map_values(|p: PrinterInfo| p@))
                },
            },
    {
        if printers.len() == 0 {
            return Err(RegistryError::NoPrinters);
        }
        let ghost models = printers@.map_values(|p: PrinterInfo| p@);
        let mut i: usize = 0;
        while i < printers.len()
            invariant
                i <= printers@.len(),
                models == printers@.map_values(|p: PrinterInfo| p@),
                forall|a: int, b: int|
                    0 <= a < b < printers@.len() && a < i ==> models[a].serial_number
                        != models[b].serial_number,
            decreases printers@.len() - i,
        {
            let mut j: usize = i + 1;
            while j < printers.len()
                invariant
                    i < j,
                    j <= printers@.len(),
                    i < printers@.len(),
                    models == printers@.map_values(|p: PrinterInfo| p@),
                    forall|b: int|
                        i < b < j ==> models[i as int].serial_number != models[b].serial_number,
                decreases printers@.len() - j,
            {
                proof {
                    assert(models[i as int] == printers@[i as int]@);
                    assert(models[j as int] == printers@[j as int]@);
                }
                if printers[i].serial_number == printers[j].serial_number {
                    proof {
                        assert(models[i as int].serial_number == models[j as int].serial_number);
                        assert(!unique_serials(models));
                    }
                    return Err(RegistryError::DuplicateSerial);
                }
                j += 1;
            }
            i += 1;
        }
        Ok(PrinterRegistry { printers })
    }

    /// How many printers were found.
    pub fn len(&self) -> (n: usize)
        ensures
            n == self@.len(),
    {
        self.printers.len()
    }

    /// The serial number of the printer at a position of the enumeration
    /// order.
    pub fn serial_at(&self, index: usize) -> (s: &String)
        requires
            index < self@.len(),
        ensures
            s@ == self@[index as int].serial_number,
    {
        &self.printers[index].serial_number
    }

    /// The position of the printer with this serial number, if any.
    pub fn index_of(&self, serial: &String) -> (r: Option<usize>)
        ensures
            match r {
                Some(i) => i < self@.len() && self@[i as int].serial_number == serial@,
                None => !self.has_serial(serial@),
            },
    {
        let mut i: usize = 0;
        while i < self.printers.len()
            invariant
                i <= self@.len(),
                self@ == self.printers@.map_values(|p: PrinterInfo| p@),
                forall|k: int| 0 <= k < i ==> self@[k].serial_number != serial@,
            decreases self@.len() - i,
        {
            proof {
                assert(self@[i as int] == self.printers@[i as int]@);
            }
            if self.printers[i].serial_number == *serial {
                return Some(i);
            }
            i += 1;
        }
        None
    }

    /// A copy of every printer's identity, for the status snapshot.
    pub fn printer_list(&self) -> (r: Vec<PrinterInfo>)
        ensures
            r@.len() == self@.len(),
            forall|i: int| 0 <= i < r@.len() ==> (#[trigger] r@[i])@ == self@[i],
    {
        let mut out: Vec<PrinterInfo> = Vec::new();
        let mut i: usize = 0;
        while i < self.printers.len()
            invariant
                i <= self@.len(),
                self@ == self.printers@.map_values(|p: PrinterInfo| p@),
                out@.len() == i,
                forall|k: int| 0 <= k < i ==> (#[trigger] out@[k])@ == self@[k],
            decreases self@.len() - i,
        {
            out.push(self.printers[i].duplicate());
            i += 1;
        }
        out
    }
}

} // verus!
