use vstd::prelude::*;

verus! {

use vstd::string::StringExecFns;
use crate::events::{key_lookup, spec_key_lookup, spec_upsert, upsert};
use crate::ingest::pairs_view;
use crate::manifest::RouteConfig;
use crate::text::{join, spec_join, views_of};

/// The streaming state of one route file: the point being read, the tag
/// last opened, and the points waiting for a flush.
pub struct RouteCollector {
    pub current_point: Option<Vec<(String, String)>>,
    pub current_tag: String,
    pub points: Vec<Vec<(String, String)>>,
}

/// A fresh track point from the element attributes: only `lat` and `lon`
/// are taken, later duplicates winning.
pub open spec fn spec_trkpt_attrs(
    acc: Seq<(Seq<char>, Seq<char>)>,
    attrs: Seq<(String, String)>,
) -> Seq<(Seq<char>, Seq<char>)>
    decreases attrs.len(),
{
    if attrs.len() == 0 {
        acc
    } else {
        let stepped = if attrs.first().0@ == "lat"@ {
            spec_upsert(acc, "lat"@, attrs.first().1@)
        } else if attrs.first().0@ == "lon"@ {
            spec_upsert(acc, "lon"@, attrs.first().1@)
        } else {
            acc
        };
        spec_trkpt_attrs(stepped, attrs.drop_first())
    }
}

/// The views of the buffered points.
pub open spec fn points_view(points: Seq<Vec<(String, String)>>) -> Seq<
    Seq<(Seq<char>, Seq<char>)>,
> {
    points.map_values(|p: Vec<(String, String)>| pairs_view(p@))
}

impl RouteCollector {
    /// Starts with no open point and nothing buffered.
    pub fn new() -> (r: RouteCollector)
        ensures
            r.current_point is None,
            r.current_tag@ == Seq::<char>::empty(),
            r.points@.len() == 0,
    {
        RouteCollector { current_point: None, current_tag: String::new(), points: Vec::new() }
    }

    /// Takes an opening element: a `trkpt` begins a new point from its
    /// `lat` and `lon` attributes; any opening element becomes the current
    /// tag.
    pub fn on_start(&mut self, name: &str, attrs: &Vec<(String, String)>)
        ensures
            final(self).points == old(self).points,
            final(self).current_tag@ == name@,
            name@ == "trkpt"@ ==> (final(self).current_point matches Some(p) && pairs_view(p@)
                == spec_trkpt_attrs(Seq::empty(), attrs@)),
            name@ != "trkpt"@ ==> final(self).current_point == old(self).current_point,
    {
        let name_owned = name.to_owned();
        if name_owned == "trkpt".to_owned() {
            let mut point: Vec<(String, String)> = Vec::new();
            let n = attrs.len();
            proof {
                assert(attrs@.skip(0) =~= attrs@);
                assert(pairs_view(point@) =~= Seq::<(Seq<char>, Seq<char>)>::empty());
            }
            for i in 0..n
                invariant
                    n == attrs@.len(),
                    spec_trkpt_attrs(Seq::empty(), attrs@) == spec_trkpt_attrs(
                        pairs_view(point@),
                        attrs@.skip(i as int),
                    ),
            {
                proof {
                    assert(attrs@.skip(i as int).drop_first() =~= attrs@.skip(i as int + 1));
                    assert(attrs@.skip(i as int).first() == attrs@[i as int]);
                }
                if attrs[i].0 == "lat".to_owned() {
                    upsert(&mut point, "lat", attrs[i].1.as_str());
                } else if attrs[i].0 == "lon".to_owned() {
                    upsert(&mut point, "lon", attrs[i].1.as_str());
                }
            }
            proof {
                assert(attrs@.skip(n as int) =~= Seq::<(String, String)>::empty());
            }
            self.current_point = Some(point);
        }
        self.current_tag = name_owned;
    }

    /// Takes element text: with a point open, it lands under the current
    /// tag.
    pub fn on_text(&mut self, text: &str)
        ensures
            final(self).points == old(self).points,
            final(self).current_tag == old(self).current_tag,
            match old(self).current_point {
                Some(p) => (final(self).current_point matches Some(q) && pairs_view(q@)
                    == spec_upsert(pairs_view(p@), old(self).current_tag@, text@)),
                None => final(self).current_point is None,
            },
    {
        match &mut self.current_point {
            Some(p) => {
                let tag = self.current_tag.clone();
                upsert(p, tag.as_str(), text);
            },
            None => {},
        }
    }

    /// Takes a closing element: a `trkpt` pushes the open point to the
    /// buffer; any closing element clears the current tag.
    pub fn on_end(&mut self, name: &str)
        ensures
            final(self).current_tag@ == Seq::<char>::empty(),
            name@ == "trkpt"@ ==> final(self).current_point is None && (match old(
                self,
            ).current_point {
                Some(p) => final(self).points@ == old(self).points@.push(p),
                None => final(self).points == old(self).points,
            }),
            name@ != "trkpt"@ ==> final(self).current_point == old(self).current_point
                && final(self).points == old(self).points,
    {
        let name_owned = name.to_owned();
        if name_owned == "trkpt".to_owned() {
            let mut taken: Option<Vec<(String, String)>> = None;
            core::mem::swap(&mut self.current_point, &mut taken);
            match taken {
                Some(p) => {
                    self.points.push(p);
                },
                None => {},
            }
        }
        self.current_tag = String::new();
    }

    /// Whether the buffer has reached the flush threshold.
    pub fn needs_flush(&self, batch_size: usize) -> (r: bool)
        ensures
            r == (self.points@.len() >= batch_size),
    {
        self.points.len() >= batch_size
    }

    /// Hands the buffered points out for flushing.
    pub fn take_points(&mut self) -> (r: Vec<Vec<(String, String)>>)
        ensures
            r == old(self).points,
            final(self).points@.len() == 0,
            final(self).current_point == old(self).current_point,
            final(self).current_tag == old(self).current_tag,
    {
        let mut out: Vec<Vec<(String, String)>> = Vec::new();
        core::mem::swap(&mut self.points, &mut out);
        out
    }
}

/// The values of one stored route row: the file name, then one value per
/// mapped tag, an empty string where the point lacks the tag.
pub open spec fn spec_route_row_values(
    file_name: Seq<char>,
    point: Seq<(Seq<char>, Seq<char>)>,
    cfg: RouteConfig,
) -> Seq<Seq<char>> {
    seq![file_name] + spec_route_tag_values(point, cfg.columns@)
}

/// The mapped tag values of one point, in configuration order.
pub open spec fn spec_route_tag_values(
    point: Seq<(Seq<char>, Seq<char>)>,
    cols: Seq<crate::manifest::RouteColumn>,
) -> Seq<Seq<char>>
    decreases cols.len(),
{
    if cols.len() == 0 {
        Seq::empty()
    } else {
        spec_route_tag_values(point, cols.drop_last()).push(
            match spec_key_lookup(point, cols.last().xml_tag@) {
                Some(v) => v,
                None => Seq::empty(),
            },
        )
    }
}

/// The insert statement of the route table: the file name column, then one
/// column per mapped tag, all bound as parameters.
pub open spec fn spec_route_insert_sql(cfg: RouteConfig) -> Seq<char> {
    "INSERT INTO "@ + cfg.target_table@ + " (file_name"@ + spec_route_insert_cols(cfg.columns@)
        + ") VALUES ("@ + spec_join(spec_route_marks(cfg.columns@), ", "@) + ")"@
}

/// The configured column names, each preceded by a separator.
pub open spec fn spec_route_insert_cols(cols: Seq<crate::manifest::RouteColumn>) -> Seq<char>
    decreases cols.len(),
{
    if cols.len() == 0 {
        Seq::empty()
    } else {
        spec_route_insert_cols(cols.drop_last()) + ", "@ + cols.last().db_column@
    }
}

/// One bind mark per inserted column, the file name included.
pub open spec fn spec_route_marks(cols: Seq<crate::manifest::RouteColumn>) -> Seq<Seq<char>>
    decreases cols.len(),
{
    if cols.len() == 0 {
        seq!["?"@]
    } else {
        spec_route_marks(cols.drop_last()).push("?"@)
    }
}

/// Builds the insert statement for route points.
pub fn route_insert_sql(cfg: &RouteConfig) -> (r: String)
    ensures
        r@ == spec_route_insert_sql(*cfg),
{
    let mut cols_part = String::new();
    let mut marks: Vec<String> = Vec::new();
    marks.push("?".to_owned());
    let n = cfg.columns.len();
    proof {
        assert(cfg.columns@.take(0) =~= Seq::<crate::manifest::RouteColumn>::empty());
        assert(cols_part@ =~= spec_route_insert_cols(cfg.columns@.take(0)));
        assert(views_of(marks@) =~= spec_route_marks(cfg.columns@.take(0)));
    }
    for i in 0..n
        invariant
            n == cfg.columns@.len(),
            cols_part@ == spec_route_insert_cols(cfg.columns@.take(i as int)),
            views_of(marks@) == spec_route_marks(cfg.columns@.take(i as int)),
    {
        let ghost before = marks@;
        cols_part.append(", ");
        cols_part.append(cfg.columns[i].db_column.as_str());
        marks.push("?".to_owned());
        proof {
            assert(cfg.columns@.take(i as int + 1).drop_last() =~= cfg.columns@.take(i as int));
            assert(cfg.columns@.take(i as int + 1).last() == cfg.columns@[i as int]);
            assert(views_of(marks@) =~= views_of(before).push("?"@));
        }
    }
    proof {
        assert(cfg.columns@.take(n as int) =~= cfg.columns@);
    }
    let joined_marks = join(&marks, ", ");
    let mut out = String::new();
    out.append("INSERT INTO ");
    out.append(cfg.target_table.as_str());
    out.append(" (file_name");
    out.append(cols_part.as_str());
    out.append(") VALUES (");
    out.append(joined_marks.as_str());
    out.append(")");
    proof {
        assert(out@ =~= spec_route_insert_sql(*cfg));
    }
    out
}

/// Builds the bind values of one route point.
pub fn route_row_values(file_name: &str, point: &Vec<(String, String)>, cfg: &RouteConfig) -> (r:
    Vec<String>)
    ensures
        views_of(r@) == spec_route_row_values(file_name@, pairs_view(point@), *cfg),
{
    let mut out: Vec<String> = Vec::new();
    out.push(file_name.to_owned());
    let n = cfg.columns.len();
    proof {
        assert(cfg.columns@.take(0) =~= Seq::<crate::manifest::RouteColumn>::empty());
        assert(views_of(out@) =~= seq![file_name@] + spec_route_tag_values(
            pairs_view(point@),
            cfg.columns@.take(0),
        ));
    }
    for i in 0..n
        invariant
            n == cfg.columns@.len(),
            views_of(out@) == seq![file_name@] + spec_route_tag_values(
                pairs_view(point@),
                cfg.columns@.take(i as int),
            ),
    {
        let ghost before = out@;
        let value = match key_lookup(point, cfg.columns[i].xml_tag.as_str()) {
            Some(v) => v,
            None => String::new(),
        };
        let ghost vv = value@;
        out.push(value);
        proof {
            assert(cfg.columns@.take(i as int + 1).drop_last() =~= cfg.columns@.take(i as int));
            assert(cfg.columns@.take(i as int + 1).last() == cfg.columns@[i as int]);
            assert(views_of(out@) =~= views_of(before).push(vv));
        }
    }
    proof {
        assert(cfg.columns@.take(n as int) =~= cfg.columns@);
    }
    out
}

} // verus!
