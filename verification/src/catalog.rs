//! The fixed exam-price catalog.
//!
//! Static reference data in this version: no storage backs it and no
//! administration path modifies it, but callers depend on its shape.

use vstd::prelude::*;

use crate::dto::ExamCatalogItemView;

verus! {

/// What the seeded catalog holds: six priced entries, in a fixed order.
pub open spec fn is_seed_catalog(c: Seq<ExamCatalogItemView>) -> bool {
    &&& c.len() == 6
    &&& c[0].id@ == "glicose"@ && c[0].name@ == "Glicose"@ && c[0].category_id@ == "bioquimica"@
        && c[0].category_title@ == "Bioquimica"@ && c[0].price_cents == 1000
    &&& c[1].id@ == "colesterol-total"@ && c[1].name@ == "Colesterol Total"@
        && c[1].category_id@ == "bioquimica"@ && c[1].category_title@ == "Bioquimica"@
        && c[1].price_cents == 1000
    &&& c[2].id@ == "triglicerideos"@ && c[2].name@ == "Triglicerideos"@
        && c[2].category_id@ == "bioquimica"@ && c[2].category_title@ == "Bioquimica"@
        && c[2].price_cents == 1000
    &&& c[3].id@ == "ureia-creatinina"@ && c[3].name@ == "Bioquimica 2 (Ureia/Creatinina)"@
        && c[3].category_id@ == "bioquimica"@ && c[3].category_title@ == "Bioquimica"@
        && c[3].price_cents == 2500
    &&& c[4].id@ == "hemograma-completo"@ && c[4].name@ == "Hemograma Completo"@
        && c[4].category_id@ == "hematologia"@ && c[4].category_title@ == "Hematologia"@
        && c[4].price_cents == 2000
    &&& c[5].id@ == "beta-hcg"@ && c[5].name@ == "Beta HCG Qualitativo"@
        && c[5].category_id@ == "imunologia"@ && c[5].category_title@ == "Imunologia"@
        && c[5].price_cents == 2000
}

fn catalog_item(id: &str, name: &str, category_id: &str, category_title: &str, price_cents: i64)
    -> (r: ExamCatalogItemView)
    ensures
        r.id@ == id@,
        r.name@ == name@,
        r.category_id@ == category_id@,
        r.category_title@ == category_title@,
        r.price_cents == price_cents,
{
    ExamCatalogItemView {
        id: id.to_owned(),
        name: name.to_owned(),
        category_id: category_id.to_owned(),
        category_title: category_title.to_owned(),
        price_cents,
    }
}

/// The catalog as seeded in this version.
pub fn seed_catalog() -> (r: Vec<ExamCatalogItemView>)
    ensures
        is_seed_catalog(r@),
{
    let mut c: Vec<ExamCatalogItemView> = Vec::new();
    c.push(catalog_item("glicose", "Glicose", "bioquimica", "Bioquimica", 1000));
    c.push(catalog_item("colesterol-total", "Colesterol Total", "bioquimica", "Bioquimica", 1000));
    c.push(catalog_item("triglicerideos", "Triglicerideos", "bioquimica", "Bioquimica", 1000));
    c.push(
        catalog_item(
            "ureia-creatinina",
            "Bioquimica 2 (Ureia/Creatinina)",
            "bioquimica",
            "Bioquimica",
            2500,
        ),
    );
    c.push(catalog_item("hemograma-completo", "Hemograma Completo", "hematologia", "Hematologia", 2000));
    c.push(catalog_item("beta-hcg", "Beta HCG Qualitativo", "imunologia", "Imunologia", 2000));
    c
}

} // verus!
