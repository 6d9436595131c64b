//! Finding the token in the body of a request.
//!
//! A form arrives either URL-encoded, as parameters `name=value` joined by
//! `&`, or as multipart form data, where the value of a field stands on the
//! line after the field's header.

use vstd::prelude::*;
use vstd::string::StringSliceAdditionalSpecFns;
use vstd::utf8::valid_utf8;
use vstd::slice::{slice_subrange, slice_to_vec};
use crate::bytes::{is_utf8, same_bytes, starts_with, views};
use crate::path::{split, split_bytes};
use crate::CSRF_FORM_FIELD;

verus! {

/// The byte `&`, which separates the parameters of a URL-encoded form.
pub const AMPERSAND: u8 = 0x26;

/// The byte `=`, which separates a parameter's name from its value.
pub const EQUALS: u8 = 0x3d;

/// The line feed.
pub const LF: u8 = 0x0a;

/// The carriage return.
pub const CR: u8 = 0x0d;

/// The header line of the part of a multipart form that carries the token.
pub const CSRF_FORM_FIELD_MULTIPART: &'static str =
    "Content-Disposition: form-data; name=\"csrf-token\"";

/// The parameter reads `name=` and then a value.
pub open spec fn is_field(parameter: Seq<u8>, name: Seq<u8>) -> bool {
    &&& parameter.len() > name.len()
    &&& parameter.take(name.len() as int) == name
    &&& parameter[name.len() as int] == EQUALS
}

/// The value of the first of the parameters that is named `name`.
pub open spec fn first_value(parameters: Seq<Seq<u8>>, name: Seq<u8>) -> Option<Seq<u8>>
    decreases parameters.len(),
{
    if parameters.len() == 0 {
        None
    } else if is_field(parameters[0], name) {
        Some(parameters[0].skip(name.len() as int + 1))
    } else {
        first_value(parameters.skip(1), name)
    }
}

/// The value of the first parameter named `name` in a URL-encoded form. A
/// body that is not UTF-8 holds no parameters.
pub open spec fn form_value(body: Seq<u8>, name: Seq<u8>) -> Option<Seq<u8>> {
    if valid_utf8(body) {
        first_value(split(body, AMPERSAND), name)
    } else {
        None
    }
}

/// The value of the first of the given parameters that is named `name`.
pub fn find_value(parameters: &Vec<Vec<u8>>, name: &[u8]) -> (r: Option<Vec<u8>>)
    ensures
        match r {
            Some(value) => first_value(views(parameters@), name@) == Some(value@),
            None => first_value(views(parameters@), name@) is None,
        },
{
    let ghost all = views(parameters@);
    let mut i: usize = 0;
    assert(all.skip(0) =~= all);
    while i < parameters.len()
        invariant
            i <= parameters.len(),
            all == views(parameters@),
            first_value(all, name@) == first_value(all.skip(i as int), name@),
        decreases parameters.len() - i,
    {
        let parameter = parameters[i].as_slice();
        proof {
            assert(all.skip(i as int)[0] == parameter@);
            assert(all.skip(i as int).skip(1) =~= all.skip(i + 1));
        }
        if parameter.len() > name.len() && starts_with(parameter, name) && parameter[name.len()]
            == EQUALS {
            let value = slice_subrange(parameter, name.len() + 1, parameter.len());
            assert(value@ =~= parameter@.skip(name@.len() as int + 1));
            return Some(slice_to_vec(value));
        }
        i += 1;
    }
    None
}

/// The value of the first parameter named `name` in a URL-encoded form.
pub fn parse_form_value(body: &[u8], name: &[u8]) -> (r: Option<Vec<u8>>)
    ensures
        match r {
            Some(value) => form_value(body@, name@) == Some(value@),
            None => form_value(body@, name@) is None,
        },
{
    if !is_utf8(body) {
        return None;
    }
    let parameters = split_bytes(body, AMPERSAND);
    find_value(&parameters, name)
}

/// The byte ends a line.
pub open spec fn is_line_break(b: u8) -> bool {
    b == LF || b == CR
}

/// The lines of `s` that are not empty, where `first` has already been read
/// of the first line.
pub open spec fn lines_after(first: Seq<u8>, s: Seq<u8>) -> Seq<Seq<u8>>
    decreases s.len(),
{
    let done = if first.len() > 0 {
        seq![first]
    } else {
        Seq::empty()
    };
    if s.len() == 0 {
        done
    } else if is_line_break(s[0]) {
        done + lines_after(Seq::empty(), s.skip(1))
    } else {
        lines_after(first.push(s[0]), s.skip(1))
    }
}

/// The lines of `s` that are not empty. A line ends at a line feed or at a
/// carriage return.
pub open spec fn lines(s: Seq<u8>) -> Seq<Seq<u8>> {
    lines_after(Seq::empty(), s)
}

/// The line that follows the first line equal to `header`.
pub open spec fn line_after(all: Seq<Seq<u8>>, header: Seq<u8>) -> Option<Seq<u8>>
    decreases all.len(),
{
    if all.len() == 0 {
        None
    } else if all[0] == header {
        if all.len() > 1 {
            Some(all[1])
        } else {
            None
        }
    } else {
        line_after(all.skip(1), header)
    }
}

/// The value of a multipart form's field: the first non-empty line after
/// the first line that is the field's header.
pub open spec fn multipart_value(body: Seq<u8>, header: Seq<u8>) -> Option<Seq<u8>> {
    line_after(lines(body), header)
}

/// Cuts `s` into its non-empty lines.
pub fn split_lines(s: &[u8]) -> (r: Vec<Vec<u8>>)
    ensures
        views(r@) == lines(s@),
{
    let mut done: Vec<Vec<u8>> = Vec::new();
    let mut current: Vec<u8> = Vec::new();
    let mut i: usize = 0;
    assert(s@.skip(0) =~= s@);
    assert(views(done@) =~= Seq::<Seq<u8>>::empty());
    assert(Seq::<Seq<u8>>::empty() + lines(s@) =~= lines(s@));
    while i < s.len()
        invariant
            i <= s.len(),
            lines(s@) == views(done@) + lines_after(current@, s@.skip(i as int)),
        decreases s.len() - i,
    {
        let ghost rest = s@.skip(i as int);
        let ghost before = views(done@);
        let ghost cur = current@;
        assert(rest.skip(1) =~= s@.skip(i + 1));
        if s[i] == LF || s[i] == CR {
            if current.len() > 0 {
                done.push(current);
                current = Vec::new();
                proof {
                    assert(views(done@) =~= before.push(cur));
                    let tail = lines_after(Seq::empty(), rest.skip(1));
                    assert(before + (seq![cur] + tail) =~= before.push(cur) + tail);
                }
            } else {
                proof {
                    let tail = lines_after(Seq::empty(), rest.skip(1));
                    assert(Seq::<Seq<u8>>::empty() + tail =~= tail);
                    assert(cur =~= Seq::<u8>::empty());
                }
            }
        } else {
            current.push(s[i]);
        }
        i += 1;
    }
    assert(s@.skip(s.len() as int) =~= Seq::<u8>::empty());
    let ghost before = views(done@);
    if current.len() > 0 {
        let ghost cur = current@;
        done.push(current);
        assert(views(done@) =~= before.push(cur));
        assert(before + seq![cur] =~= before.push(cur));
    } else {
        assert(before + Seq::<Seq<u8>>::empty() =~= before);
    }
    done
}

/// The value of a multipart form's field with the given header line.
pub fn parse_multipart_value(body: &[u8], header: &[u8]) -> (r: Option<Vec<u8>>)
    ensures
        match r {
            Some(value) => multipart_value(body@, header@) == Some(value@),
            None => multipart_value(body@, header@) is None,
        },
{
    let all = split_lines(body);
    let ghost model = views(all@);
    let mut i: usize = 0;
    assert(model.skip(0) =~= model);
    while i < all.len()
        invariant
            i <= all.len(),
            model == views(all@),
            model == lines(body@),
            line_after(model, header@) == line_after(model.skip(i as int), header@),
        decreases all.len() - i,
    {
        proof {
            assert(model.skip(i as int)[0] == all@[i as int]@);
            assert(model.skip(i as int).skip(1) =~= model.skip(i + 1));
        }
        if same_bytes(all[i].as_slice(), header) {
            if i + 1 < all.len() {
                assert(model.skip(i as int)[1] == all@[i + 1]@);
                return Some(slice_to_vec(all[i + 1].as_slice()));
            } else {
                return None;
            }
        }
        i += 1;
    }
    None
}

/// The encoded token that a request body carries, if it carries one: in a
/// multipart form the value of the part with the token field's header, else
/// the value of the URL-encoded parameter with the token field's name.
pub open spec fn body_token(body: Seq<u8>, multipart: bool) -> Option<Seq<u8>> {
    if multipart {
        multipart_value(body, CSRF_FORM_FIELD_MULTIPART.spec_bytes())
    } else {
        form_value(body, CSRF_FORM_FIELD.spec_bytes())
    }
}

/// Finds the encoded token in a request body.
pub fn extract_token(body: &[u8], multipart: bool) -> (r: Option<Vec<u8>>)
    ensures
        match r {
            Some(token) => body_token(body@, multipart) == Some(token@),
            None => body_token(body@, multipart) is None,
        },
{
    if multipart {
        parse_multipart_value(body, CSRF_FORM_FIELD_MULTIPART.as_bytes())
    } else {
        parse_form_value(body, CSRF_FORM_FIELD.as_bytes())
    }
}

} // verus!
