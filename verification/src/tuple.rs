//! Tuples of four to twelve primitives: each is read from an array of as
//! many items, and written as one.

use vstd::prelude::*;
use crate::error::Error;
use crate::json::{lemma_views, views, FromJson, Json, JsonView, ToJson};
use crate::primitive::Primitive;

verus! {

broadcast use vstd::seq::group_seq_axioms;

impl<A: FromJson, B: FromJson, C: FromJson, D: FromJson> FromJson for (A, B, C, D) {
    open spec fn decoded(json: JsonView) -> Option<(A::V, B::V, C::V, D::V)> {
        match json {
            JsonView::Array(items) => if items.len() == 4
                && A::decoded(items[0]) is Some
                && B::decoded(items[1]) is Some
                && C::decoded(items[2]) is Some
                && D::decoded(items[3]) is Some {
                Some(
                    (
                        A::decoded(items[0])->Some_0,
                        B::decoded(items[1])->Some_0,
                        C::decoded(items[2])->Some_0,
                        D::decoded(items[3])->Some_0,
                    ),
                )
            } else {
                None
            },
            _ => None,
        }
    }

    fn from_json(json: &Json) -> (result: Result<Self, Error>) {
        match json {
            Json::Array(items) => {
                proof {
                    lemma_views(items@);
                }
                if items.len() != 4 {
                    return Err(Json::unexpected("an array of four items"));
                }
                let item0 = match A::from_json(&items[0]) {
                    Ok(value) => value,
                    Err(error) => {
                        return Err(error);
                    },
                };
                let item1 = match B::from_json(&items[1]) {
                    Ok(value) => value,
                    Err(error) => {
                        return Err(error);
                    },
                };
                let item2 = match C::from_json(&items[2]) {
                    Ok(value) => value,
                    Err(error) => {
                        return Err(error);
                    },
                };
                let item3 = match D::from_json(&items[3]) {
                    Ok(value) => value,
                    Err(error) => {
                        return Err(error);
                    },
                };
                Ok((item0, item1, item2, item3))
            },
            _ => Err(Json::unexpected("an array")),
        }
    }
}

impl<A: ToJson, B: ToJson, C: ToJson, D: ToJson> ToJson for (A, B, C, D) {
    open spec fn encoded(value: (A::V, B::V, C::V, D::V)) -> JsonView {
        JsonView::Array(seq![
            A::encoded(value.0),
            B::encoded(value.1),
            C::encoded(value.2),
            D::encoded(value.3),
        ])
    }

    fn to_json(&self) -> (json: Json) {
        let mut items: Vec<Json> = Vec::new();
        items.push(self.0.to_json());
        items.push(self.1.to_json());
        items.push(self.2.to_json());
        items.push(self.3.to_json());
        proof {
            lemma_views(items@);
            assert(views(items@) =~= seq![
                A::encoded(self.0.deep_view()),
                B::encoded(self.1.deep_view()),
                C::encoded(self.2.deep_view()),
                D::encoded(self.3.deep_view()),
            ]);
        }
        Json::Array(items)
    }
}

impl<A: Primitive, B: Primitive, C: Primitive, D: Primitive> Primitive for (A, B, C, D) {
}

impl<
    A: FromJson,
    B: FromJson,
    C: FromJson,
    D: FromJson,
    E: FromJson,
> FromJson for (A, B, C, D, E) {
    open spec fn decoded(json: JsonView) -> Option<(A::V, B::V, C::V, D::V, E::V)> {
        match json {
            JsonView::Array(items) => if items.len() == 5
                && A::decoded(items[0]) is Some
                && B::decoded(items[1]) is Some
                && C::decoded(items[2]) is Some
                && D::decoded(items[3]) is Some
                && E::decoded(items[4]) is Some {
                Some(
                    (
                        A::decoded(items[0])->Some_0,
                        B::decoded(items[1])->Some_0,
                        C::decoded(items[2])->Some_0,
                        D::decoded(items[3])->Some_0,
                        E::decoded(items[4])->Some_0,
                    ),
                )
            } else {
                None
            },
            _ => None,
        }
    }

    fn from_json(json: &Json) -> (result: Result<Self, Error>) {
        match json {
            Json::Array(items) => {
                proof {
                    lemma_views(items@);
                }
                if items.len() != 5 {
                    return Err(Json::unexpected("an array of five items"));
                }
                let item0 = match A::from_json(&items[0]) {
                    Ok(value) => value,
                    Err(error) => {
                        return Err(error);
                    },
                };
                let item1 = match B::from_json(&items[1]) {
                    Ok(value) => value,
                    Err(error) => {
                        return Err(error);
                    },
                };
                let item2 = match C::from_json(&items[2]) {
                    Ok(value) => value,
                    Err(error) => {
                        return Err(error);
                    },
                };
                let item3 = match D::from_json(&items[3]) {
                    Ok(value) => value,
                    Err(error) => {
                        return Err(error);
                    },
                };
                let item4 = match E::from_json(&items[4]) {
                    Ok(value) => value,
                    Err(error) => {
                        return Err(error);
                    },
                };
                Ok((item0, item1, item2, item3, item4))
            },
            _ => Err(Json::unexpected("an array")),
        }
    }
}

impl<A: ToJson, B: ToJson, C: ToJson, D: ToJson, E: ToJson> ToJson for (A, B, C, D, E) {
    open spec fn encoded(value: (A::V, B::V, C::V, D::V, E::V)) -> JsonView {
        JsonView::Array(seq![
            A::encoded(value.0),
            B::encoded(value.1),
            C::encoded(value.2),
            D::encoded(value.3),
            E::encoded(value.4),
        ])
    }

    fn to_json(&self) -> (json: Json) {
        let mut items: Vec<Json> = Vec::new();
        items.push(self.0.to_json());
        items.push(self.1.to_json());
        items.push(self.2.to_json());
        items.push(self.3.to_json());
        items.push(self.4.to_json());
        proof {
            lemma_views(items@);
            assert(views(items@) =~= seq![
                A::encoded(self.0.deep_view()),
                B::encoded(self.1.deep_view()),
                C::encoded(self.2.deep_view()),
                D::encoded(self.3.deep_view()),
                E::encoded(self.4.deep_view()),
            ]);
        }
        Json::Array(items)
    }
}

impl<
    A: Primitive,
    B: Primitive,
    C: Primitive,
    D: Primitive,
    E: Primitive,
> Primitive for (A, B, C, D, E) {
}

impl<
    A: FromJson,
    B: FromJson,
    C: FromJson,
    D: FromJson,
    E: FromJson,
    F: FromJson,
> FromJson for (A, B, C, D, E, F) {
    open spec fn decoded(json: JsonView) -> Option<(A::V, B::V, C::V, D::V, E::V, F::V)> {
        match json {
            JsonView::Array(items) => if items.len() == 6
                && A::decoded(items[0]) is Some
                && B::decoded(items[1]) is Some
                && C::decoded(items[2]) is Some
                && D::decoded(items[3]) is Some
                && E::decoded(items[4]) is Some
                && F::decoded(items[5]) is Some {
                Some(
                    (
                        A::decoded(items[0])->Some_0,
                        B::decoded(items[1])->Some_0,
                        C::decoded(items[2])->Some_0,
                        D::decoded(items[3])->Some_0,
                        E::decoded(items[4])->Some_0,
                        F::decoded(items[5])->Some_0,
                    ),
                )
            } else {
                None
            },
            _ => None,
        }
    }

    fn from_json(json: &Json) -> (result: Result<Self, Error>) {
        match json {
            Json::Array(items) => {
                proof {
                    lemma_views(items@);
                }
                if items.len() != 6 {
                    return Err(Json::unexpected("an array of six items"));
                }
                let item0 = match A::from_json(&items[0]) {
                    Ok(value) => value,
                    Err(error) => {
                        return Err(error);
                    },
                };
                let item1 = match B::from_json(&items[1]) {
                    Ok(value) => value,
                    Err(error) => {
                        return Err(error);
                    },
                };
                let item2 = match C::from_json(&items[2]) {
                    Ok(value) => value,
                    Err(error) => {
                        return Err(error);
                    },
                };
                let item3 = match D::from_json(&items[3]) {
                    Ok(value) => value,
                    Err(error) => {
                        return Err(error);
                    },
                };
                let item4 = match E::from_json(&items[4]) {
                    Ok(value) => value,
                    Err(error) => {
                        return Err(error);
                    },
                };
                let item5 = match F::from_json(&items[5]) {
                    Ok(value) => value,
                    Err(error) => {
                        return Err(error);
                    },
                };
                Ok((item0, item1, item2, item3, item4, item5))
            },
            _ => Err(Json::unexpected("an array")),
        }
    }
}

impl<
    A: ToJson,
    B: ToJson,
    C: ToJson,
    D: ToJson,
    E: ToJson,
    F: ToJson,
> ToJson for (A, B, C, D, E, F) {
    open spec fn encoded(value: (A::V, B::V, C::V, D::V, E::V, F::V)) -> JsonView {
        JsonView::Array(seq![
            A::encoded(value.0),
            B::encoded(value.1),
            C::encoded(value.2),
            D::encoded(value.3),
            E::encoded(value.4),
            F::encoded(value.5),
        ])
    }

    fn to_json(&self) -> (json: Json) {
        let mut items: Vec<Json> = Vec::new();
        items.push(self.0.to_json());
        items.push(self.1.to_json());
        items.push(self.2.to_json());
        items.push(self.3.to_json());
        items.push(self.4.to_json());
        items.push(self.5.to_json());
        proof {
            lemma_views(items@);
            assert(views(items@) =~= seq![
                A::encoded(self.0.deep_view()),
                B::encoded(self.1.deep_view()),
                C::encoded(self.2.deep_view()),
                D::encoded(self.3.deep_view()),
                E::encoded(self.4.deep_view()),
                F::encoded(self.5.deep_view()),
            ]);
        }
        Json::Array(items)
    }
}

impl<
    A: Primitive,
    B: Primitive,
    C: Primitive,
    D: Primitive,
    E: Primitive,
    F: Primitive,
> Primitive for (A, B, C, D, E, F) {
}

impl<
    A: FromJson,
    B: FromJson,
    C: FromJson,
    D: FromJson,
    E: FromJson,
    F: FromJson,
    G: FromJson,
> FromJson for (A, B, C, D, E, F, G) {
    open spec fn decoded(json: JsonView) -> Option<(A::V, B::V, C::V, D::V, E::V, F::V, G::V)> {
        match json {
            JsonView::Array(items) => if items.len() == 7
                && A::decoded(items[0]) is Some
                && B::decoded(items[1]) is Some
                && C::decoded(items[2]) is Some
                && D::decoded(items[3]) is Some
                && E::decoded(items[4]) is Some
                && F::decoded(items[5]) is Some
                && G::decoded(items[6]) is Some {
                Some(
                    (
                        A::decoded(items[0])->Some_0,
                        B::decoded(items[1])->Some_0,
                        C::decoded(items[2])->Some_0,
                        D::decoded(items[3])->Some_0,
                        E::decoded(items[4])->Some_0,
                        F::decoded(items[5])->Some_0,
                        G::decoded(items[6])->Some_0,
                    ),
                )
            } else {
                None
            },
            _ => None,
        }
    }

    fn from_json(json: &Json) -> (result: Result<Self, Error>) {
        match json {
            Json::Array(items) => {
                proof {
                    lemma_views(items@);
                }
                if items.len() != 7 {
                    return Err(Json::unexpected("an array of seven items"));
                }
                let item0 = match A::from_json(&items[0]) {
                    Ok(value) => value,
                    Err(error) => {
                        return Err(error);
                    },
                };
                let item1 = match B::from_json(&items[1]) {
                    Ok(value) => value,
                    Err(error) => {
                        return Err(error);
                    },
                };
                let item2 = match C::from_json(&items[2]) {
                    Ok(value) => value,
                    Err(error) => {
                        return Err(error);
                    },
                };
                let item3 = match D::from_json(&items[3]) {
                    Ok(value) => value,
                    Err(error) => {
                        return Err(error);
                    },
                };
                let item4 = match E::from_json(&items[4]) {
                    Ok(value) => value,
                    Err(error) => {
                        return Err(error);
                    },
                };
                let item5 = match F::from_json(&items[5]) {
                    Ok(value) => value,
                    Err(error) => {
                        return Err(error);
                    },
                };
                let item6 = match G::from_json(&items[6]) {
                    Ok(value) => value,
                    Err(error) => {
                        return Err(error);
                    },
                };
                Ok((item0, item1, item2, item3, item4, item5, item6))
            },
            _ => Err(Json::unexpected("an array")),
        }
    }
}

impl<
    A: ToJson,
    B: ToJson,
    C: ToJson,
    D: ToJson,
    E: ToJson,
    F: ToJson,
    G: ToJson,
> ToJson for (A, B, C, D, E, F, G) {
    open spec fn encoded(value: (A::V, B::V, C::V, D::V, E::V, F::V, G::V)) -> JsonView {
        JsonView::Array(seq![
            A::encoded(value.0),
            B::encoded(value.1),
            C::encoded(value.2),
            D::encoded(value.3),
            E::encoded(value.4),
            F::encoded(value.5),
            G::encoded(value.6),
        ])
    }

    fn to_json(&self) -> (json: Json) {
        let mut items: Vec<Json> = Vec::new();
        items.push(self.0.to_json());
        items.push(self.1.to_json());
        items.push(self.2.to_json());
        items.push(self.3.to_json());
        items.push(self.4.to_json());
        items.push(self.5.to_json());
        items.push(self.6.to_json());
        proof {
            lemma_views(items@);
            assert(views(items@) =~= seq![
                A::encoded(self.0.deep_view()),
                B::encoded(self.1.deep_view()),
                C::encoded(self.2.deep_view()),
                D::encoded(self.3.deep_view()),
                E::encoded(self.4.deep_view()),
                F::encoded(self.5.deep_view()),
                G::encoded(self.6.deep_view()),
            ]);
        }
        Json::Array(items)
    }
}

impl<
    A: Primitive,
    B: Primitive,
    C: Primitive,
    D: Primitive,
    E: Primitive,
    F: Primitive,
    G: Primitive,
> Primitive for (A, B, C, D, E, F, G) {
}

impl<
    A: FromJson,
    B: FromJson,
    C: FromJson,
    D: FromJson,
    E: FromJson,
    F: FromJson,
    G: FromJson,
    H: FromJson,
> FromJson for (A, B, C, D, E, F, G, H) {
    open spec fn decoded(json: JsonView) -> Option<
        (A::V, B::V, C::V, D::V, E::V, F::V, G::V, H::V),
    > {
        match json {
            JsonView::Array(items) => if items.len() == 8
                && A::decoded(items[0]) is Some
                && B::decoded(items[1]) is Some
                && C::decoded(items[2]) is Some
                && D::decoded(items[3]) is Some
                && E::decoded(items[4]) is Some
                && F::decoded(items[5]) is Some
                && G::decoded(items[6]) is Some
                && H::decoded(items[7]) is Some {
                Some(
                    (
                        A::decoded(items[0])->Some_0,
                        B::decoded(items[1])->Some_0,
                        C::decoded(items[2])->Some_0,
                        D::decoded(items[3])->Some_0,
                        E::decoded(items[4])->Some_0,
                        F::decoded(items[5])->Some_0,
                        G::decoded(items[6])->Some_0,
                        H::decoded(items[7])->Some_0,
                    ),
                )
            } else {
                None
            },
            _ => None,
        }
    }

    fn from_json(json: &Json) -> (result: Result<Self, Error>) {
        match json {
            Json::Array(items) => {
                proof {
                    lemma_views(items@);
                }
                if items.len() != 8 {
                    return Err(Json::unexpected("an array of eight items"));
                }
                let item0 = match A::from_json(&items[0]) {
                    Ok(value) => value,
                    Err(error) => {
                        return Err(error);
                    },
                };
                let item1 = match B::from_json(&items[1]) {
                    Ok(value) => value,
                    Err(error) => {
                        return Err(error);
                    },
                };
                let item2 = match C::from_json(&items[2]) {
                    Ok(value) => value,
                    Err(error) => {
                        return Err(error);
                    },
                };
                let item3 = match D::from_json(&items[3]) {
                    Ok(value) => value,
                    Err(error) => {
                        return Err(error);
                    },
                };
                let item4 = match E::from_json(&items[4]) {
                    Ok(value) => value,
                    Err(error) => {
                        return Err(error);
                    },
                };
                let item5 = match F::from_json(&items[5]) {
                    Ok(value) => value,
                    Err(error) => {
                        return Err(error);
                    },
                };
                let item6 = match G::from_json(&items[6]) {
                    Ok(value) => value,
                    Err(error) => {
                        return Err(error);
                    },
                };
                let item7 = match H::from_json(&items[7]) {
                    Ok(value) => value,
                    Err(error) => {
                        return Err(error);
                    },
                };
                Ok((item0, item1, item2, item3, item4, item5, item6, item7))
            },
            _ => Err(Json::unexpected("an array")),
        }
    }
}

impl<
    A: ToJson,
    B: ToJson,
    C: ToJson,
    D: ToJson,
    E: ToJson,
    F: ToJson,
    G: ToJson,
    H: ToJson,
> ToJson for (A, B, C, D, E, F, G, H) {
    open spec fn encoded(value: (A::V, B::V, C::V, D::V, E::V, F::V, G::V, H::V)) -> JsonView {
        JsonView::Array(seq![
            A::encoded(value.0),
            B::encoded(value.1),
            C::encoded(value.2),
            D::encoded(value.3),
            E::encoded(value.4),
            F::encoded(value.5),
            G::encoded(value.6),
            H::encoded(value.7),
        ])
    }

    fn to_json(&self) -> (json: Json) {
        let mut items: Vec<Json> = Vec::new();
        items.push(self.0.to_json());
        items.push(self.1.to_json());
        items.push(self.2.to_json());
        items.push(self.3.to_json());
        items.push(self.4.to_json());
        items.push(self.5.to_json());
        items.push(self.6.to_json());
        items.push(self.7.to_json());
        proof {
            lemma_views(items@);
            assert(views(items@) =~= seq![
                A::encoded(self.0.deep_view()),
                B::encoded(self.1.deep_view()),
                C::encoded(self.2.deep_view()),
                D::encoded(self.3.deep_view()),
                E::encoded(self.4.deep_view()),
                F::encoded(self.5.deep_view()),
                G::encoded(self.6.deep_view()),
                H::encoded(self.7.deep_view()),
            ]);
        }
        Json::Array(items)
    }
}

impl<
    A: Primitive,
    B: Primitive,
    C: Primitive,
    D: Primitive,
    E: Primitive,
    F: Primitive,
    G: Primitive,
    H: Primitive,
> Primitive for (A, B, C, D, E, F, G, H) {
}

impl<
    A: FromJson,
    B: FromJson,
    C: FromJson,
    D: FromJson,
    E: FromJson,
    F: FromJson,
    G: FromJson,
    H: FromJson,
    I: FromJson,
> FromJson for (A, B, C, D, E, F, G, H, I) {
    open spec fn decoded(json: JsonView) -> Option<(
        A::V,
        B::V,
        C::V,
        D::V,
        E::V,
        F::V,
        G::V,
        H::V,
        I::V,
    )> {
        match json {
            JsonView::Array(items) => if items.len() == 9
                && A::decoded(items[0]) is Some
                && B::decoded(items[1]) is Some
                && C::decoded(items[2]) is Some
                && D::decoded(items[3]) is Some
                && E::decoded(items[4]) is Some
                && F::decoded(items[5]) is Some
                && G::decoded(items[6]) is Some
                && H::decoded(items[7]) is Some
                && I::decoded(items[8]) is Some {
                Some(
                    (
                        A::decoded(items[0])->Some_0,
                        B::decoded(items[1])->Some_0,
                        C::decoded(items[2])->Some_0,
                        D::decoded(items[3])->Some_0,
                        E::decoded(items[4])->Some_0,
                        F::decoded(items[5])->Some_0,
                        G::decoded(items[6])->Some_0,
                        H::decoded(items[7])->Some_0,
                        I::decoded(items[8])->Some_0,
                    ),
                )
            } else {
                None
            },
            _ => None,
        }
    }

    fn from_json(json: &Json) -> (result: Result<Self, Error>) {
        match json {
            Json::Array(items) => {
                proof {
                    lemma_views(items@);
                }
                if items.len() != 9 {
                    return Err(Json::unexpected("an array of nine items"));
                }
                let item0 = match A::from_json(&items[0]) {
                    Ok(value) => value,
                    Err(error) => {
                        return Err(error);
                    },
                };
                let item1 = match B::from_json(&items[1]) {
                    Ok(value) => value,
                    Err(error) => {
                        return Err(error);
                    },
                };
                let item2 = match C::from_json(&items[2]) {
                    Ok(value) => value,
                    Err(error) => {
                        return Err(error);
                    },
                };
                let item3 = match D::from_json(&items[3]) {
                    Ok(value) => value,
                    Err(error) => {
                        return Err(error);
                    },
                };
                let item4 = match E::from_json(&items[4]) {
                    Ok(value) => value,
                    Err(error) => {
                        return Err(error);
                    },
                };
                let item5 = match F::from_json(&items[5]) {
                    Ok(value) => value,
                    Err(error) => {
                        return Err(error);
                    },
                };
                let item6 = match G::from_json(&items[6]) {
                    Ok(value) => value,
                    Err(error) => {
                        return Err(error);
                    },
                };
                let item7 = match H::from_json(&items[7]) {
                    Ok(value) => value,
                    Err(error) => {
                        return Err(error);
                    },
                };
                let item8 = match I::from_json(&items[8]) {
                    Ok(value) => value,
                    Err(error) => {
                        return Err(error);
                    },
                };
                Ok((item0, item1, item2, item3, item4, item5, item6, item7, item8))
            },
            _ => Err(Json::unexpected("an array")),
        }
    }
}

impl<
    A: ToJson,
    B: ToJson,
    C: ToJson,
    D: ToJson,
    E: ToJson,
    F: ToJson,
    G: ToJson,
    H: ToJson,
    I: ToJson,
> ToJson for (A, B, C, D, E, F, G, H, I) {
    open spec fn encoded(value: (
        A::V,
        B::V,
        C::V,
        D::V,
        E::V,
        F::V,
        G::V,
        H::V,
        I::V,
    )) -> JsonView {
        JsonView::Array(seq![
            A::encoded(value.0),
            B::encoded(value.1),
            C::encoded(value.2),
            D::encoded(value.3),
            E::encoded(value.4),
            F::encoded(value.5),
            G::encoded(value.6),
            H::encoded(value.7),
            I::encoded(value.8),
        ])
    }

    fn to_json(&self) -> (json: Json) {
        let mut items: Vec<Json> = Vec::new();
        items.push(self.0.to_json());
        items.push(self.1.to_json());
        items.push(self.2.to_json());
        items.push(self.3.to_json());
        items.push(self.4.to_json());
        items.push(self.5.to_json());
        items.push(self.6.to_json());
        items.push(self.7.to_json());
        items.push(self.8.to_json());
        proof {
            lemma_views(items@);
            assert(views(items@) =~= seq![
                A::encoded(self.0.deep_view()),
                B::encoded(self.1.deep_view()),
                C::encoded(self.2.deep_view()),
                D::encoded(self.3.deep_view()),
                E::encoded(self.4.deep_view()),
                F::encoded(self.5.deep_view()),
                G::encoded(self.6.deep_view()),
                H::encoded(self.7.deep_view()),
                I::encoded(self.8.deep_view()),
            ]);
        }
        Json::Array(items)
    }
}

impl<
    A: Primitive,
    B: Primitive,
    C: Primitive,
    D: Primitive,
    E: Primitive,
    F: Primitive,
    G: Primitive,
    H: Primitive,
    I: Primitive,
> Primitive for (A, B, C, D, E, F, G, H, I) {
}

impl<
    A: FromJson,
    B: FromJson,
    C: FromJson,
    D: FromJson,
    E: FromJson,
    F: FromJson,
    G: FromJson,
    H: FromJson,
    I: FromJson,
    J: FromJson,
> FromJson for (A, B, C, D, E, F, G, H, I, J) {
    open spec fn decoded(json: JsonView) -> Option<(
        A::V,
        B::V,
        C::V,
        D::V,
        E::V,
        F::V,
        G::V,
        H::V,
        I::V,
        J::V,
    )> {
        match json {
            JsonView::Array(items) => if items.len() == 10
                && A::decoded(items[0]) is Some
                && B::decoded(items[1]) is Some
                && C::decoded(items[2]) is Some
                && D::decoded(items[3]) is Some
                && E::decoded(items[4]) is Some
                && F::decoded(items[5]) is Some
                && G::decoded(items[6]) is Some
                && H::decoded(items[7]) is Some
                && I::decoded(items[8]) is Some
                && J::decoded(items[9]) is Some {
                Some(
                    (
                        A::decoded(items[0])->Some_0,
                        B::decoded(items[1])->Some_0,
                        C::decoded(items[2])->Some_0,
                        D::decoded(items[3])->Some_0,
                        E::decoded(items[4])->Some_0,
                        F::decoded(items[5])->Some_0,
                        G::decoded(items[6])->Some_0,
                        H::decoded(items[7])->Some_0,
                        I::decoded(items[8])->Some_0,
                        J::decoded(items[9])->Some_0,
                    ),
                )
            } else {
                None
            },
            _ => None,
        }
    }

    fn from_json(json: &Json) -> (result: Result<Self, Error>) {
        match json {
            Json::Array(items) => {
                proof {
                    lemma_views(items@);
                }
                if items.len() != 10 {
                    return Err(Json::unexpected("an array of ten items"));
                }
                let item0 = match A::from_json(&items[0]) {
                    Ok(value) => value,
                    Err(error) => {
                        return Err(error);
                    },
                };
                let item1 = match B::from_json(&items[1]) {
                    Ok(value) => value,
                    Err(error) => {
                        return Err(error);
                    },
                };
                let item2 = match C::from_json(&items[2]) {
                    Ok(value) => value,
                    Err(error) => {
                        return Err(error);
                    },
                };
                let item3 = match D::from_json(&items[3]) {
                    Ok(value) => value,
                    Err(error) => {
                        return Err(error);
                    },
                };
                let item4 = match E::from_json(&items[4]) {
                    Ok(value) => value,
                    Err(error) => {
                        return Err(error);
                    },
                };
                let item5 = match F::from_json(&items[5]) {
                    Ok(value) => value,
                    Err(error) => {
                        return Err(error);
                    },
                };
                let item6 = match G::from_json(&items[6]) {
                    Ok(value) => value,
                    Err(error) => {
                        return Err(error);
                    },
                };
                let item7 = match H::from_json(&items[7]) {
                    Ok(value) => value,
                    Err(error) => {
                        return Err(error);
                    },
                };
                let item8 = match I::from_json(&items[8]) {
                    Ok(value) => value,
                    Err(error) => {
                        return Err(error);
                    },
                };
                let item9 = match J::from_json(&items[9]) {
                    Ok(value) => value,
                    Err(error) => {
                        return Err(error);
                    },
                };
                Ok((item0, item1, item2, item3, item4, item5, item6, item7, item8, item9))
            },
            _ => Err(Json::unexpected("an array")),
        }
    }
}

impl<
    A: ToJson,
    B: ToJson,
    C: ToJson,
    D: ToJson,
    E: ToJson,
    F: ToJson,
    G: ToJson,
    H: ToJson,
    I: ToJson,
    J: ToJson,
> ToJson for (A, B, C, D, E, F, G, H, I, J) {
    open spec fn encoded(value: (
        A::V,
        B::V,
        C::V,
        D::V,
        E::V,
        F::V,
        G::V,
        H::V,
        I::V,
        J::V,
    )) -> JsonView {
        JsonView::Array(seq![
            A::encoded(value.0),
            B::encoded(value.1),
            C::encoded(value.2),
            D::encoded(value.3),
            E::encoded(value.4),
            F::encoded(value.5),
            G::encoded(value.6),
            H::encoded(value.7),
            I::encoded(value.8),
            J::encoded(value.9),
        ])
    }

    fn to_json(&self) -> (json: Json) {
        let mut items: Vec<Json> = Vec::new();
        items.push(self.0.to_json());
        items.push(self.1.to_json());
        items.push(self.2.to_json());
        items.push(self.3.to_json());
        items.push(self.4.to_json());
        items.push(self.5.to_json());
        items.push(self.6.to_json());
        items.push(self.7.to_json());
        items.push(self.8.to_json());
        items.push(self.9.to_json());
        proof {
            lemma_views(items@);
            assert(views(items@) =~= seq![
                A::encoded(self.0.deep_view()),
                B::encoded(self.1.deep_view()),
                C::encoded(self.2.deep_view()),
                D::encoded(self.3.deep_view()),
                E::encoded(self.4.deep_view()),
                F::encoded(self.5.deep_view()),
                G::encoded(self.6.deep_view()),
                H::encoded(self.7.deep_view()),
                I::encoded(self.8.deep_view()),
                J::encoded(self.9.deep_view()),
            ]);
        }
        Json::Array(items)
    }
}

impl<
    A: Primitive,
    B: Primitive,
    C: Primitive,
    D: Primitive,
    E: Primitive,
    F: Primitive,
    G: Primitive,
    H: Primitive,
    I: Primitive,
    J: Primitive,
> Primitive for (A, B, C, D, E, F, G, H, I, J) {
}

impl<
    A: FromJson,
    B: FromJson,
    C: FromJson,
    D: FromJson,
    E: FromJson,
    F: FromJson,
    G: FromJson,
    H: FromJson,
    I: FromJson,
    J: FromJson,
    K: FromJson,
> FromJson for (A, B, C, D, E, F, G, H, I, J, K) {
    open spec fn decoded(json: JsonView) -> Option<(
        A::V,
        B::V,
        C::V,
        D::V,
        E::V,
        F::V,
        G::V,
        H::V,
        I::V,
        J::V,
        K::V,
    )> {
        match json {
            JsonView::Array(items) => if items.len() == 11
                && A::decoded(items[0]) is Some
                && B::decoded(items[1]) is Some
                && C::decoded(items[2]) is Some
                && D::decoded(items[3]) is Some
                && E::decoded(items[4]) is Some
                && F::decoded(items[5]) is Some
                && G::decoded(items[6]) is Some
                && H::decoded(items[7]) is Some
                && I::decoded(items[8]) is Some
                && J::decoded(items[9]) is Some
                && K::decoded(items[10]) is Some {
                Some(
                    (
                        A::decoded(items[0])->Some_0,
                        B::decoded(items[1])->Some_0,
                        C::decoded(items[2])->Some_0,
                        D::decoded(items[3])->Some_0,
                        E::decoded(items[4])->Some_0,
                        F::decoded(items[5])->Some_0,
                        G::decoded(items[6])->Some_0,
                        H::decoded(items[7])->Some_0,
                        I::decoded(items[8])->Some_0,
                        J::decoded(items[9])->Some_0,
                        K::decoded(items[10])->Some_0,
                    ),
                )
            } else {
                None
            },
            _ => None,
        }
    }

    fn from_json(json: &Json) -> (result: Result<Self, Error>) {
        match json {
            Json::Array(items) => {
                proof {
                    lemma_views(items@);
                }
                if items.len() != 11 {
                    return Err(Json::unexpected("an array of eleven items"));
                }
                let item0 = match A::from_json(&items[0]) {
                    Ok(value) => value,
                    Err(error) => {
                        return Err(error);
                    },
                };
                let item1 = match B::from_json(&items[1]) {
                    Ok(value) => value,
                    Err(error) => {
                        return Err(error);
                    },
                };
                let item2 = match C::from_json(&items[2]) {
                    Ok(value) => value,
                    Err(error) => {
                        return Err(error);
                    },
                };
                let item3 = match D::from_json(&items[3]) {
                    Ok(value) => value,
                    Err(error) => {
                        return Err(error);
                    },
                };
                let item4 = match E::from_json(&items[4]) {
                    Ok(value) => value,
                    Err(error) => {
                        return Err(error);
                    },
                };
                let item5 = match F::from_json(&items[5]) {
                    Ok(value) => value,
                    Err(error) => {
                        return Err(error);
                    },
                };
                let item6 = match G::from_json(&items[6]) {
                    Ok(value) => value,
                    Err(error) => {
                        return Err(error);
                    },
                };
                let item7 = match H::from_json(&items[7]) {
                    Ok(value) => value,
                    Err(error) => {
                        return Err(error);
                    },
                };
                let item8 = match I::from_json(&items[8]) {
                    Ok(value) => value,
                    Err(error) => {
                        return Err(error);
                    },
                };
                let item9 = match J::from_json(&items[9]) {
                    Ok(value) => value,
                    Err(error) => {
                        return Err(error);
                    },
                };
                let item10 = match K::from_json(&items[10]) {
                    Ok(value) => value,
                    Err(error) => {
                        return Err(error);
                    },
                };
                Ok(
                    (
                        item0,
                        item1,
                        item2,
                        item3,
                        item4,
                        item5,
                        item6,
                        item7,
                        item8,
                        item9,
                        item10,
                    ),
                )
            },
            _ => Err(Json::unexpected("an array")),
        }
    }
}

impl<
    A: ToJson,
    B: ToJson,
    C: ToJson,
    D: ToJson,
    E: ToJson,
    F: ToJson,
    G: ToJson,
    H: ToJson,
    I: ToJson,
    J: ToJson,
    K: ToJson,
> ToJson for (A, B, C, D, E, F, G, H, I, J, K) {
    open spec fn encoded(value: (
        A::V,
        B::V,
        C::V,
        D::V,
        E::V,
        F::V,
        G::V,
        H::V,
        I::V,
        J::V,
        K::V,
    )) -> JsonView {
        JsonView::Array(seq![
            A::encoded(value.0),
            B::encoded(value.1),
            C::encoded(value.2),
            D::encoded(value.3),
            E::encoded(value.4),
            F::encoded(value.5),
            G::encoded(value.6),
            H::encoded(value.7),
            I::encoded(value.8),
            J::encoded(value.9),
            K::encoded(value.10),
        ])
    }

    fn to_json(&self) -> (json: Json) {
        let mut items: Vec<Json> = Vec::new();
        items.push(self.0.to_json());
        items.push(self.1.to_json());
        items.push(self.2.to_json());
        items.push(self.3.to_json());
        items.push(self.4.to_json());
        items.push(self.5.to_json());
        items.push(self.6.to_json());
        items.push(self.7.to_json());
        items.push(self.8.to_json());
        items.push(self.9.to_json());
        items.push(self.10.to_json());
        proof {
            lemma_views(items@);
            assert(views(items@) =~= seq![
                A::encoded(self.0.deep_view()),
                B::encoded(self.1.deep_view()),
                C::encoded(self.2.deep_view()),
                D::encoded(self.3.deep_view()),
                E::encoded(self.4.deep_view()),
                F::encoded(self.5.deep_view()),
                G::encoded(self.6.deep_view()),
                H::encoded(self.7.deep_view()),
                I::encoded(self.8.deep_view()),
                J::encoded(self.9.deep_view()),
                K::encoded(self.10.deep_view()),
            ]);
        }
        Json::Array(items)
    }
}

impl<
    A: Primitive,
    B: Primitive,
    C: Primitive,
    D: Primitive,
    E: Primitive,
    F: Primitive,
    G: Primitive,
    H: Primitive,
    I: Primitive,
    J: Primitive,
    K: Primitive,
> Primitive for (A, B, C, D, E, F, G, H, I, J, K) {
}

impl<
    A: FromJson,
    B: FromJson,
    C: FromJson,
    D: FromJson,
    E: FromJson,
    F: FromJson,
    G: FromJson,
    H: FromJson,
    I: FromJson,
    J: FromJson,
    K: FromJson,
    L: FromJson,
> FromJson for (A, B, C, D, E, F, G, H, I, J, K, L) {
    open spec fn decoded(json: JsonView) -> Option<(
        A::V,
        B::V,
        C::V,
        D::V,
        E::V,
        F::V,
        G::V,
        H::V,
        I::V,
        J::V,
        K::V,
        L::V,
    )> {
        match json {
            JsonView::Array(items) => if items.len() == 12
                && A::decoded(items[0]) is Some
                && B::decoded(items[1]) is Some
                && C::decoded(items[2]) is Some
                && D::decoded(items[3]) is Some
                && E::decoded(items[4]) is Some
                && F::decoded(items[5]) is Some
                && G::decoded(items[6]) is Some
                && H::decoded(items[7]) is Some
                && I::decoded(items[8]) is Some
                && J::decoded(items[9]) is Some
                && K::decoded(items[10]) is Some
                && L::decoded(items[11]) is Some {
                Some(
                    (
                        A::decoded(items[0])->Some_0,
                        B::decoded(items[1])->Some_0,
                        C::decoded(items[2])->Some_0,
                        D::decoded(items[3])->Some_0,
                        E::decoded(items[4])->Some_0,
                        F::decoded(items[5])->Some_0,
                        G::decoded(items[6])->Some_0,
                        H::decoded(items[7])->Some_0,
                        I::decoded(items[8])->Some_0,
                        J::decoded(items[9])->Some_0,
                        K::decoded(items[10])->Some_0,
                        L::decoded(items[11])->Some_0,
                    ),
                )
            } else {
                None
            },
            _ => None,
        }
    }

    fn from_json(json: &Json) -> (result: Result<Self, Error>) {
        match json {
            Json::Array(items) => {
                proof {
                    lemma_views(items@);
                }
                if items.len() != 12 {
                    return Err(Json::unexpected("an array of twelve items"));
                }
                let item0 = match A::from_json(&items[0]) {
                    Ok(value) => value,
                    Err(error) => {
                        return Err(error);
                    },
                };
                let item1 = match B::from_json(&items[1]) {
                    Ok(value) => value,
                    Err(error) => {
                        return Err(error);
                    },
                };
                let item2 = match C::from_json(&items[2]) {
                    Ok(value) => value,
                    Err(error) => {
                        return Err(error);
                    },
                };
                let item3 = match D::from_json(&items[3]) {
                    Ok(value) => value,
                    Err(error) => {
                        return Err(error);
                    },
                };
                let item4 = match E::from_json(&items[4]) {
                    Ok(value) => value,
                    Err(error) => {
                        return Err(error);
                    },
                };
                let item5 = match F::from_json(&items[5]) {
                    Ok(value) => value,
                    Err(error) => {
                        return Err(error);
                    },
                };
                let item6 = match G::from_json(&items[6]) {
                    Ok(value) => value,
                    Err(error) => {
                        return Err(error);
                    },
                };
                let item7 = match H::from_json(&items[7]) {
                    Ok(value) => value,
                    Err(error) => {
                        return Err(error);
                    },
                };
                let item8 = match I::from_json(&items[8]) {
                    Ok(value) => value,
                    Err(error) => {
                        return Err(error);
                    },
                };
                let item9 = match J::from_json(&items[9]) {
                    Ok(value) => value,
                    Err(error) => {
                        return Err(error);
                    },
                };
                let item10 = match K::from_json(&items[10]) {
                    Ok(value) => value,
                    Err(error) => {
                        return Err(error);
                    },
                };
                let item11 = match L::from_json(&items[11]) {
                    Ok(value) => value,
                    Err(error) => {
                        return Err(error);
                    },
                };
                Ok(
                    (
                        item0,
                        item1,
                        item2,
                        item3,
                        item4,
                        item5,
                        item6,
                        item7,
                        item8,
                        item9,
                        item10,
                        item11,
                    ),
                )
            },
            _ => Err(Json::unexpected("an array")),
        }
    }
}

impl<
    A: ToJson,
    B: ToJson,
    C: ToJson,
    D: ToJson,
    E: ToJson,
    F: ToJson,
    G: ToJson,
    H: ToJson,
    I: ToJson,
    J: ToJson,
    K: ToJson,
    L: ToJson,
> ToJson for (A, B, C, D, E, F, G, H, I, J, K, L) {
    open spec fn encoded(value: (
        A::V,
        B::V,
        C::V,
        D::V,
        E::V,
        F::V,
        G::V,
        H::V,
        I::V,
        J::V,
        K::V,
        L::V,
    )) -> JsonView {
        JsonView::Array(seq![
            A::encoded(value.0),
            B::encoded(value.1),
            C::encoded(value.2),
            D::encoded(value.3),
            E::encoded(value.4),
            F::encoded(value.5),
            G::encoded(value.6),
            H::encoded(value.7),
            I::encoded(value.8),
            J::encoded(value.9),
            K::encoded(value.10),
            L::encoded(value.11),
        ])
    }

    fn to_json(&self) -> (json: Json) {
        let mut items: Vec<Json> = Vec::new();
        items.push(self.0.to_json());
        items.push(self.1.to_json());
        items.push(self.2.to_json());
        items.push(self.3.to_json());
        items.push(self.4.to_json());
        items.push(self.5.to_json());
        items.push(self.6.to_json());
        items.push(self.7.to_json());
        items.push(self.8.to_json());
        items.push(self.9.to_json());
        items.push(self.10.to_json());
        items.push(self.11.to_json());
        proof {
            lemma_views(items@);
            assert(views(items@) =~= seq![
                A::encoded(self.0.deep_view()),
                B::encoded(self.1.deep_view()),
                C::encoded(self.2.deep_view()),
                D::encoded(self.3.deep_view()),
                E::encoded(self.4.deep_view()),
                F::encoded(self.5.deep_view()),
                G::encoded(self.6.deep_view()),
                H::encoded(self.7.deep_view()),
                I::encoded(self.8.deep_view()),
                J::encoded(self.9.deep_view()),
                K::encoded(self.10.deep_view()),
                L::encoded(self.11.deep_view()),
            ]);
        }
        Json::Array(items)
    }
}

impl<
    A: Primitive,
    B: Primitive,
    C: Primitive,
    D: Primitive,
    E: Primitive,
    F: Primitive,
    G: Primitive,
    H: Primitive,
    I: Primitive,
    J: Primitive,
    K: Primitive,
    L: Primitive,
> Primitive for (A, B, C, D, E, F, G, H, I, J, K, L) {
}

} // verus!
