//! The three operations that the service offers, in the shape of its routes.
use vstd::prelude::*;
use crate::ids::is_code_form;
use crate::model::{base_url, short_url_for, starts_with, ShortenRequest, ShortenResponse};
use crate::store::{
    no_code_form_taken, report_of, report_view, resolved, shortened, url_known, AppState, ResolveError,
    ShortenError,
};

verus! {

/// The code at the end of a short link.
pub open spec fn code_in(short_url: Seq<char>) -> Seq<char> {
    short_url.subrange(base_url().len() as int, short_url.len() as int)
}

/// Shortens the submitted link and answers with its short link.
pub fn shorten_url(data: &mut AppState, body: ShortenRequest) -> (r: Result<ShortenResponse, ShortenError>)
    requires
        old(data).wf(),
    ensures
        final(data).wf(),
        r matches Ok(resp) ==> starts_with(resp.short_url@, base_url()),
        shortened(
            old(data).urls(),
            old(data).clicks(),
            body.url@,
            match r {
                Ok(resp) => Some(code_in(resp.short_url@)),
                Err(_) => None,
            },
            final(data).urls(),
            final(data).clicks(),
        ),
        !url_known(old(data).urls(), body.url@) && no_code_form_taken(old(data).urls()) ==> r is Ok,
        r matches Ok(resp) ==> (!url_known(old(data).urls(), body.url@) ==> is_code_form(
            code_in(resp.short_url@),
        )),
{
    match data.shorten(body.url) {
        Ok(code) => {
            let short_url = short_url_for(&code);
            assert(short_url@.subrange(0, base_url().len() as int) =~= base_url());
            assert(code_in(short_url@) =~= code@);
            Ok(ShortenResponse { short_url })
        },
        Err(e) => Err(e),
    }
}

/// The link that `code` leads to, counting the visit.
pub fn redirect_url(data: &mut AppState, code: &String) -> (r: Result<String, ResolveError>)
    requires
        old(data).wf(),
    ensures
        final(data).wf(),
        final(data).urls() == old(data).urls(),
        resolved(
            old(data).urls(),
            old(data).clicks(),
            code@,
            match r {
                Ok(u) => Some(u@),
                Err(_) => None,
            },
            final(data).clicks(),
        ),
        r == Err::<String, ResolveError>(ResolveError::Reserved) <==> crate::model::is_reserved(code@),
        r == Err::<String, ResolveError>(ResolveError::Unknown) <==> !crate::model::is_reserved(code@)
            && !old(data).urls().contains_key(code@),
{
    data.resolve(code)
}

/// Every code with its link and click count.
pub fn dashboard(data: &AppState) -> (r: Vec<(String, String, u64)>)
    requires
        data.wf(),
    ensures
        crate::assoc::keys_unique(report_view(r@)),
        crate::assoc::assoc_map(report_view(r@)) == report_of(data.urls(), data.clicks()),
        r@.len() == data.urls().dom().len(),
{
    data.report()
}

} // verus!
