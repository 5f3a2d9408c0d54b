//! `sale/add` request and response

use crate::json::error::Error;
use crate::json::reader::Reader;
use crate::json::value::{fields_view, JsonValue, Value};
use crate::json::writer::{value_text, Writer};
use vstd::prelude::*;

verus! {

/// `sale/add` request (amount and total price given as decimal text)
#[derive(Debug)]
pub struct SaleAddRequest {
    pub accesstoken: String,
    /// Booking date, `yyyy-mm-dd`
    pub bookingdate: String,
    pub articleid: String,
    pub amount: String,
    pub memberid: Option<u32>,
    pub totalprice: Option<String>,
    pub comment: Option<String>,
}

/// Fields of a sale request, in the order they are written (the optional ones only where given)
pub open spec fn sale_add_fields(r: SaleAddRequest) -> Seq<(Seq<char>, JsonValue)> {
    seq![
        ("accesstoken"@, JsonValue::String(r.accesstoken@)),
        ("bookingdate"@, JsonValue::String(r.bookingdate@)),
        ("articleid"@, JsonValue::String(r.articleid@)),
        ("amount"@, JsonValue::Decimal(r.amount@)),
    ] + match r.memberid {
        Some(m) => seq![("memberid"@, JsonValue::Integer(m as i64))],
        None => seq![],
    } + match r.totalprice {
        Some(t) => seq![("totalprice"@, JsonValue::Decimal(t@))],
        None => seq![],
    } + match r.comment {
        Some(c) => seq![("comment"@, JsonValue::String(c@))],
        None => seq![],
    }
}

impl SaleAddRequest {
    /// Write the request as a JSON object
    pub fn to_json(&self, writer: &mut Writer) -> (r: Result<(), Error>)
        ensures
            r is Ok,
            final(writer).written() == old(writer).written() + value_text(
                JsonValue::Object(sale_add_fields(*self)),
            ),
    {
        let mut fs: Vec<(String, Value)> = Vec::new();
        fs.push((String::from_str("accesstoken"), Value::String(self.accesstoken.clone())));
        fs.push((String::from_str("bookingdate"), Value::String(self.bookingdate.clone())));
        fs.push((String::from_str("articleid"), Value::String(self.articleid.clone())));
        fs.push((String::from_str("amount"), Value::Decimal(self.amount.clone())));
        let ghost base = fs@;
        match self.memberid {
            Some(m) => {
                fs.push((String::from_str("memberid"), Value::Integer(m as i64)));
            },
            None => {},
        }
        let ghost mid1 = fs@;
        match &self.totalprice {
            Some(t) => {
                fs.push((String::from_str("totalprice"), Value::Decimal(t.clone())));
            },
            None => {},
        }
        let ghost mid2 = fs@;
        match &self.comment {
            Some(c) => {
                fs.push((String::from_str("comment"), Value::String(c.clone())));
            },
            None => {},
        }
        proof {
            reveal_with_fuel(fields_view, 8);
            assert(fields_view(base) =~= seq![
                ("accesstoken"@, JsonValue::String(self.accesstoken@)),
                ("bookingdate"@, JsonValue::String(self.bookingdate@)),
                ("articleid"@, JsonValue::String(self.articleid@)),
                ("amount"@, JsonValue::Decimal(self.amount@)),
            ]);
            if self.memberid is Some {
                assert(mid1.drop_last() =~= base);
            } else {
                assert(mid1 =~= base);
            }
            if self.totalprice is Some {
                assert(mid2.drop_last() =~= mid1);
            } else {
                assert(mid2 =~= mid1);
            }
            if self.comment is Some {
                assert(fs@.drop_last() =~= mid2);
            } else {
                assert(fs@ =~= mid2);
            }
            assert(fields_view(fs@) =~= sale_add_fields(*self));
        }
        writer.write_fields(fs.as_slice())
    }
}

/// `sale/add` response (no fields are used)
#[derive(Debug)]
pub struct SaleAddResponse {}

impl SaleAddResponse {
    /// Read the response object, skipping its fields
    pub fn read(reader: &mut Reader) -> (r: Result<Self, Error>)
        ensures
            match crate::json::reader::spec_read_object(old(reader).source(), old(reader).offset()) {
                Ok(_) => r is Ok,
                Err(e) => r matches Err(x) && x == e,
            },
    {
        match reader.read_object() {
            Ok(_) => Ok(SaleAddResponse {  }),
            Err(e) => Err(e),
        }
    }
}

} // verus!
