//! Names that the plugin event bus hands to the JVM.

use vstd::prelude::*;

use vstd::string::StringExecFns;

verus! {

/// `s` with every `.` turned into `/`.
pub open spec fn slashed(s: Seq<char>) -> Seq<char> {
    s.map_values(|c: char| if c == '.' { '/' } else { c })
}

/// `str::replace` with the pattern `'.'` and the replacement `"/"`: the
/// string with every `.` replaced by `/`, as its documentation says.
#[verifier::external_body]
fn replace_dots(s: &str) -> (r: String)
    ensures
        r@ == slashed(s@),
{
    s.replace('.', "/")
}

/// The JVM's internal form of a binary class name: `a.b.C` becomes `a/b/C`.
pub fn jni_class_name(class_name: &str) -> (r: String)
    ensures
        r@ == slashed(class_name@),
{
    replace_dots(class_name)
}

/// The JNI signature of an event handler that takes one event of the class
/// `event_class` and returns nothing: `(L<class in internal form>;)V`.
pub fn handler_signature(event_class: &str) -> (r: String)
    ensures
        r@ == "(L"@ + slashed(event_class@) + ";)V"@,
{
    let internal = jni_class_name(event_class);
    let mut sig = String::from_str("(L");
    sig.append(internal.as_str());
    sig.append(";)V");
    sig
}

/// Whether a plugin method becomes an event handler: it must carry the
/// `@Subscribe` annotation and take exactly one parameter, the event, whose
/// class is the event the handler is registered for.
pub fn is_event_handler(annotated: bool, param_count: usize) -> (r: bool)
    ensures
        r == (annotated && param_count == 1),
{
    annotated && param_count == 1
}

} // verus!
