//! Running a strategy's Python script through the embedded interpreter.
//!
//! The script sees `portfolio` (its `cash` and its `positions`, each with a
//! `quantity` and an `avg_price`), `market` (the `price` and `volume` of
//! every asset with a bar at the timestamp) and `timestamp` (RFC 3339), all
//! numbers as text, and may set `signal`.  What the script does is its own:
//! nothing is promised of the outcome.
use crate::decimal::dec_text;
use crate::domain::uuid_text;
use crate::script::{ScriptInputs, ScriptOutcome};
use chrono::DateTime;
use pyo3::types::{PyAny, PyAnyMethods, PyDict, PyDictMethods};
use pyo3::{Bound, Python};
use vstd::prelude::*;

verus! {

#[verifier::external_type_specification]
#[verifier::external_body]
pub struct ExPython<'py>(Python<'py>);

#[verifier::external_type_specification]
#[verifier::external_body]
#[verifier::reject_recursive_types(T)]
pub struct ExBound<'py, T>(Bound<'py, T>);

#[verifier::external_type_specification]
#[verifier::external_body]
pub struct ExPyDict(PyDict);

#[verifier::external_type_specification]
#[verifier::external_body]
pub struct ExPyAny(PyAny);

/// `pyo3::prepare_freethreaded_python`: starts the interpreter unless it
/// is running.
#[verifier::external_body]
fn prepare_python() {
    pyo3::prepare_freethreaded_python();
}

/// `Python::with_gil`, holding the interpreter while [`script_turn`] runs.
#[verifier::external_body]
fn with_python(script: &str, inputs: &ScriptInputs) -> ScriptOutcome {
    Python::with_gil(|py| script_turn(py, script, inputs))
}

/// `PyDict::new_bound`: a new, empty dictionary.
#[verifier::external_body]
fn dict_new<'py>(py: Python<'py>) -> Bound<'py, PyDict> {
    PyDict::new_bound(py)
}

/// `set_item` with a text value; a failure gives the interpreter's error as
/// text.
#[verifier::external_body]
fn dict_set_text<'py>(d: &Bound<'py, PyDict>, key: &str, value: &str) -> Result<(), String> {
    match d.set_item(key, value) {
        Ok(()) => Ok(()),
        Err(e) => Err(format!("Python Error: {}", e)),
    }
}

/// `set_item` with a text or `None` value.
#[verifier::external_body]
fn dict_set_opt_text<'py>(d: &Bound<'py, PyDict>, key: &str, value: Option<String>) -> Result<(), String> {
    match d.set_item(key, value) {
        Ok(()) => Ok(()),
        Err(e) => Err(format!("Python Error: {}", e)),
    }
}

/// `set_item` with a dictionary value.
#[verifier::external_body]
fn dict_set_dict<'py>(d: &Bound<'py, PyDict>, key: &str, value: &Bound<'py, PyDict>) -> Result<(), String> {
    match d.set_item(key, value) {
        Ok(()) => Ok(()),
        Err(e) => Err(format!("Python Error: {}", e)),
    }
}

/// `Python::run_bound`: runs `script` with `locals` as its local variables.
#[verifier::external_body]
fn run_code<'py>(py: Python<'py>, script: &str, locals: &Bound<'py, PyDict>) -> Result<(), String> {
    match py.run_bound(script, None, Some(locals)) {
        Ok(()) => Ok(()),
        Err(e) => Err(format!("Python Error: {}", e)),
    }
}

/// `get_item`: the value under `key`, if any (a failed lookup counts as none).
#[verifier::external_body]
fn dict_get<'py>(d: &Bound<'py, PyDict>, key: &str) -> Option<Bound<'py, PyAny>> {
    match d.get_item(key) {
        Ok(v) => v,
        Err(_) => None,
    }
}

/// `extract::<String>`: the value as text, if it is a `str`.
#[verifier::external_body]
fn extract_text<'py>(v: &Bound<'py, PyAny>) -> Result<String, String> {
    match v.extract::<String>() {
        Ok(s) => Ok(s),
        Err(e) => Err(format!("Python Error: {}", e)),
    }
}

/// `DateTime::from_timestamp` and `to_rfc3339`: the RFC 3339 text of a UTC
/// time, if chrono can hold it.
#[verifier::external_body]
fn rfc3339_text(secs: i64, nanos: u32) -> Option<String> {
    match DateTime::from_timestamp(secs, nanos) {
        Some(t) => Some(t.to_rfc3339()),
        None => None,
    }
}

/// Seconds and nanoseconds of a timestamp in nanoseconds since the epoch,
/// the nanoseconds in `0..10^9`; `None` where the seconds do not fit `i64`.
pub fn split_nanos(n: i128) -> (r: Option<(i64, u32)>)
    ensures
        r matches Some((secs, nanos)) ==> secs * 1_000_000_000 + nanos == n && nanos < 1_000_000_000,
        r is None ==> !(i64::MIN * 1_000_000_000 <= n < (i64::MAX + 1) * 1_000_000_000),
{
    let secs: i128;
    let nanos: i128;
    if n >= 0 {
        secs = n / 1_000_000_000;
        nanos = n % 1_000_000_000;
    } else {
        let m: i128 = -(n + 1);
        let q: i128 = m / 1_000_000_000;
        secs = -q - 1;
        nanos = 999_999_999 - m % 1_000_000_000;
    }
    if secs < i64::MIN as i128 || secs > i64::MAX as i128 {
        return None;
    }
    Some((secs as i64, nanos as u32))
}

/// The variables the script starts with.
fn script_locals<'py>(py: Python<'py>, inputs: &ScriptInputs) -> Result<Bound<'py, PyDict>, String> {
    let locals = dict_new(py);
    let portfolio = dict_new(py);
    dict_set_text(&portfolio, "cash", dec_text(inputs.cash).as_str())?;
    let positions = dict_new(py);
    let mut i: usize = 0;
    while i < inputs.positions.len()
        decreases inputs.positions.len() - i,
    {
        let pos = inputs.positions[i];
        let info = dict_new(py);
        dict_set_text(&info, "quantity", dec_text(pos.quantity).as_str())?;
        dict_set_text(&info, "avg_price", dec_text(pos.average_price).as_str())?;
        dict_set_dict(&positions, uuid_text(pos.asset_id).as_str(), &info)?;
        i = i + 1;
    }
    dict_set_dict(&portfolio, "positions", &positions)?;
    dict_set_dict(&locals, "portfolio", &portfolio)?;
    let market = dict_new(py);
    let mut k: usize = 0;
    while k < inputs.market.len()
        decreases inputs.market.len() - k,
    {
        let quote = inputs.market[k];
        let point = dict_new(py);
        dict_set_text(&point, "price", dec_text(quote.price).as_str())?;
        let volume = match quote.volume {
            None => None,
            Some(v) => Some(dec_text(v)),
        };
        dict_set_opt_text(&point, "volume", volume)?;
        dict_set_dict(&market, uuid_text(quote.asset_id).as_str(), &point)?;
        k = k + 1;
    }
    dict_set_dict(&locals, "market", &market)?;
    let time = match split_nanos(inputs.timestamp) {
        None => None,
        Some((secs, nanos)) => rfc3339_text(secs, nanos),
    };
    match time {
        None => return Err("Python Error: the timestamp is out of range".to_string()),
        Some(text) => dict_set_text(&locals, "timestamp", text.as_str())?,
    }
    Ok(locals)
}

/// One run of the script: its failure, or the `signal` it set.  A `signal`
/// that is not a `str` is a failure.
fn script_turn<'py>(py: Python<'py>, script: &str, inputs: &ScriptInputs) -> ScriptOutcome {
    let locals = match script_locals(py, inputs) {
        Err(message) => return ScriptOutcome::Failed(message),
        Ok(l) => l,
    };
    match run_code(py, script, &locals) {
        Err(message) => return ScriptOutcome::Failed(message),
        Ok(()) => {},
    }
    match dict_get(&locals, "signal") {
        None => ScriptOutcome::NoSignal,
        Some(v) => match extract_text(&v) {
            Err(message) => ScriptOutcome::Failed(message),
            Ok(s) => ScriptOutcome::Signal(s),
        },
    }
}

/// Runs a strategy's script on what it is shown at one timestamp.
pub fn run_script(script: &str, inputs: &ScriptInputs) -> ScriptOutcome {
    prepare_python();
    with_python(script, inputs)
}

} // verus!
