//! The patient entity.

use vstd::prelude::*;

use crate::errors::PatientDomainError;
use crate::text::{is_blank, is_blank_str};

verus! {

/// One stored patient.  `full_name` and `cpf` are non-blank for every value
/// built through [`Patient::new`]; `cpf` is unique across patients at the
/// storage layer.
#[derive(Clone, Debug)]
pub struct Patient {
    pub id: String,
    pub full_name: String,
    pub cpf: String,
    pub birth_date: String,
    pub sex: String,
    pub phone: String,
    pub address: String,
    pub created_at: String,
    pub updated_at: String,
}

/// The abstract value of a patient: its fields as character sequences.
#[verifier::ext_equal]
pub struct SpecPatient {
    pub id: Seq<char>,
    pub full_name: Seq<char>,
    pub cpf: Seq<char>,
    pub birth_date: Seq<char>,
    pub sex: Seq<char>,
    pub phone: Seq<char>,
    pub address: Seq<char>,
    pub created_at: Seq<char>,
    pub updated_at: Seq<char>,
}

impl View for Patient {
    type V = SpecPatient;

    open spec fn view(&self) -> SpecPatient {
        SpecPatient {
            id: self.id@,
            full_name: self.full_name@,
            cpf: self.cpf@,
            birth_date: self.birth_date@,
            sex: self.sex@,
            phone: self.phone@,
            address: self.address@,
            created_at: self.created_at@,
            updated_at: self.updated_at@,
        }
    }
}

impl Patient {
    /// Builds a patient, rejecting a blank full name or a blank identifier;
    /// all other fields are carried through unchanged.
    pub fn new(
        id: String,
        full_name: String,
        cpf: String,
        birth_date: String,
        sex: String,
        phone: String,
        address: String,
        created_at: String,
        updated_at: String,
    ) -> (r: Result<Patient, PatientDomainError>)
        ensures
            is_blank(full_name@) ==> r == Err::<Patient, PatientDomainError>(
                PatientDomainError::FullNameRequired,
            ),
            !is_blank(full_name@) && is_blank(cpf@) ==> r == Err::<Patient, PatientDomainError>(
                PatientDomainError::CpfRequired,
            ),
            !is_blank(full_name@) && !is_blank(cpf@) ==> (r matches Ok(p) && p@.id == id@
                && p@.full_name == full_name@ && p@.cpf == cpf@ && p@.birth_date == birth_date@
                && p@.sex == sex@ && p@.phone == phone@ && p@.address == address@
                && p@.created_at == created_at@ && p@.updated_at == updated_at@),
    {
        if is_blank_str(full_name.as_str()) {
            return Err(PatientDomainError::FullNameRequired);
        }
        if is_blank_str(cpf.as_str()) {
            return Err(PatientDomainError::CpfRequired);
        }
        Ok(Patient { id, full_name, cpf, birth_date, sex, phone, address, created_at, updated_at })
    }
}

} // verus!
