//! Numerical behavior of the constructed operators: the operators are
//! built and validated by the library; this file supplies the floating
//! point kernels that consume the typed parameters, mirroring the
//! numerical layer in `app`, and holds the projection scenarios to their
//! reference values.

use geodesy::{Context, Direction, Op};

type Coord = [f64; 4];

fn geo(lat: f64, lon: f64, h: f64, t: f64) -> Coord {
    [lon.to_radians(), lat.to_radians(), h, t]
}

fn raw(x: f64, y: f64, z: f64, t: f64) -> Coord {
    [x, y, z, t]
}

fn hypot2(a: &Coord, b: &Coord) -> f64 {
    (a[0] - b[0]).hypot(a[1] - b[1])
}

fn hypot3(a: &Coord, b: &Coord) -> f64 {
    (a[0] - b[0]).hypot(a[1] - b[1]).hypot(a[2] - b[2])
}

// ----- The ellipsoid and its latitude series -----------------------------

struct Ellps {
    a: f64,
    es: f64,
    e: f64,
    n: f64,
}

fn ellps_of(name: &str) -> Ellps {
    let (a, f) = match name {
        "intl" => (6378388.0, 1.0 / 297.0),
        "WGS84" => (6378137.0, 1.0 / 298.257223563),
        _ => (6378137.0, 1.0 / 298.257222101),
    };
    let es = f * (2.0 - f);
    Ellps { a, es, e: es.sqrt(), n: f / (2.0 - f) }
}

impl Ellps {
    /// Meridian arc length per radian of rectifying latitude.
    fn arc_unit(&self) -> f64 {
        let n = self.n;
        self.a / (1.0 + n) * (1.0 + n * n / 4.0 + n.powi(4) / 64.0)
    }
}

/// Coefficients c_k of a series sum c_k sin(2 k x), each a polynomial in
/// the third flattening with ascending powers from n^1.
fn fourier(n: f64, tbl: &[[f64; 6]; 6]) -> [f64; 6] {
    let mut c = [0.0; 6];
    for i in 0..6 {
        let mut acc = 0.0;
        for k in (0..6).rev() {
            acc = acc * n + tbl[i][k];
        }
        c[i] = acc * n;
    }
    c
}

fn sum_sin(two_x: f64, c: &[f64; 6]) -> f64 {
    let mut s = 0.0;
    for k in 0..6 {
        s += c[k] * ((k as f64 + 1.0) * two_x).sin();
    }
    s
}

/// The complex analog: sum c_k sin(k (x + i y)), returned as (real, imag).
fn sum_sin_complex(two_x: f64, two_y: f64, c: &[f64; 6]) -> (f64, f64) {
    let mut sr = 0.0;
    let mut si = 0.0;
    for k in 0..6 {
        let m = k as f64 + 1.0;
        sr += c[k] * (m * two_x).sin() * (m * two_y).cosh();
        si += c[k] * (m * two_x).cos() * (m * two_y).sinh();
    }
    (sr, si)
}

// Geographic to conformal latitude, and back, in powers of the third
// flattening.
const GEO_TO_CONF: [[f64; 6]; 6] = [
    [-2., 2. / 3., 4. / 3., -82. / 45., 32. / 45., 4642. / 4725.],
    [0., 5. / 3., -16. / 15., -13. / 9., 904. / 315., -1522. / 945.],
    [0., 0., -26. / 15., 34. / 21., 8. / 5., -12686. / 2835.],
    [0., 0., 0., 1237. / 630., -12. / 5., -24832. / 14175.],
    [0., 0., 0., 0., -734. / 315., 109598. / 31185.],
    [0., 0., 0., 0., 0., 444337. / 155925.],
];

const CONF_TO_GEO: [[f64; 6]; 6] = [
    [2., -2. / 3., -2., 116. / 45., 26. / 45., -2854. / 675.],
    [0., 7. / 3., -8. / 5., -227. / 45., 2704. / 315., 2323. / 945.],
    [0., 0., 56. / 15., -136. / 35., -1262. / 105., 73814. / 2835.],
    [0., 0., 0., 4279. / 630., -332. / 35., -399572. / 14175.],
    [0., 0., 0., 0., 4174. / 315., -144838. / 6237.],
    [0., 0., 0., 0., 0., 601676. / 22275.],
];

// Geographic to rectifying latitude, and back.
const GEO_TO_RECT: [[f64; 6]; 6] = [
    [-3. / 2., 0., 9. / 16., 0., -3. / 32., 0.],
    [0., 15. / 16., 0., -15. / 32., 0., 0.],
    [0., 0., -35. / 48., 0., 105. / 256., 0.],
    [0., 0., 0., 315. / 512., 0., 0.],
    [0., 0., 0., 0., -693. / 1280., 0.],
    [0., 0., 0., 0., 0., 0.],
];

const RECT_TO_GEO: [[f64; 6]; 6] = [
    [3. / 2., 0., -27. / 32., 0., 269. / 512., 0.],
    [0., 21. / 16., 0., -55. / 32., 0., 0.],
    [0., 0., 151. / 96., 0., -417. / 128., 0.],
    [0., 0., 0., 1097. / 512., 0., 0.],
    [0., 0., 0., 0., 8011. / 2560., 0.],
    [0., 0., 0., 0., 0., 0.],
];

// Geodetic to transverse-mercator correction, and back.
const TM_FWD: [[f64; 6]; 6] = [
    [1. / 2., -2. / 3., 5. / 16., 41. / 180., -127. / 288., 7891. / 37800.],
    [0., 13. / 48., -3. / 5., 557. / 1440., 281. / 630., -1983433. / 1935360.],
    [0., 0., 61. / 240., -103. / 140., 15061. / 26880., 167603. / 181440.],
    [0., 0., 0., 49561. / 161280., -179. / 168., 6601661. / 7257600.],
    [0., 0., 0., 0., 34729. / 80640., -3418889. / 1995840.],
    [0., 0., 0., 0., 0., 212378941. / 319334400.],
];

const TM_INV: [[f64; 6]; 6] = [
    [-1. / 2., 2. / 3., -37. / 96., 1. / 360., 81. / 512., -96199. / 604800.],
    [0., -1. / 48., -1. / 15., 437. / 1440., -46. / 105., 1118711. / 3870720.],
    [0., 0., -17. / 480., 37. / 840., 209. / 4480., -5569. / 90720.],
    [0., 0., 0., -4397. / 161280., 11. / 504., 830251. / 7257600.],
    [0., 0., 0., 0., -4583. / 161280., 108847. / 3991680.],
    [0., 0., 0., 0., 0., -20648693. / 638668800.],
];

// ----- Reading an operator's typed parameters ----------------------------

fn realp(op: &Op, key: &str, default: f64) -> f64 {
    match op.params.real_text(key) {
        Ok(s) => s.parse().unwrap(),
        Err(_) => default,
    }
}

fn slot(s: &String) -> f64 {
    s.parse().unwrap()
}

fn op_ellps(op: &Op) -> Ellps {
    ellps_of(op.params.ellps(0).as_str())
}

// ----- The kernels --------------------------------------------------------

fn cart_kernel(op: &Op, d: Direction, c: &mut [Coord]) {
    let e = op_ellps(op);
    for p in c.iter_mut() {
        match d {
            Direction::Fwd => {
                let (lam, phi, h) = (p[0], p[1], p[2]);
                let nr = e.a / (1.0 - e.es * phi.sin().powi(2)).sqrt();
                p[0] = (nr + h) * phi.cos() * lam.cos();
                p[1] = (nr + h) * phi.cos() * lam.sin();
                p[2] = (nr * (1.0 - e.es) + h) * phi.sin();
            },
            Direction::Inv => {
                let (x, y, z) = (p[0], p[1], p[2]);
                let b = e.a * (1.0 - e.es).sqrt();
                let eps = e.es / (1.0 - e.es);
                let pr = x.hypot(y);
                // On the polar axis the longitude is indeterminate.
                if pr < 1e-9 {
                    p[0] = 0.0;
                    p[1] = if z < 0.0 {
                        -std::f64::consts::FRAC_PI_2
                    } else {
                        std::f64::consts::FRAC_PI_2
                    };
                    p[2] = z.abs() - b;
                    continue;
                }
                let theta = (z * e.a).atan2(pr * b);
                let phi = (z + eps * b * theta.sin().powi(3)).atan2(
                    pr - e.es * e.a * theta.cos().powi(3),
                );
                let lam = y.atan2(x);
                let nr = e.a / (1.0 - e.es * phi.sin().powi(2)).sqrt();
                let h = pr / phi.cos() - nr;
                p[0] = lam;
                p[1] = phi;
                p[2] = h;
            },
        }
    }
}

fn helmert_kernel(op: &Op, d: Direction, c: &mut [Coord]) {
    let dx = realp(op, "x", 0.0) + realp(op, "dx", 0.0);
    let dy = realp(op, "y", 0.0) + realp(op, "dy", 0.0);
    let dz = realp(op, "z", 0.0) + realp(op, "dz", 0.0);
    for p in c.iter_mut() {
        match d {
            Direction::Fwd => {
                p[0] += dx;
                p[1] += dy;
                p[2] += dz;
            },
            Direction::Inv => {
                p[0] -= dx;
                p[1] -= dy;
                p[2] -= dz;
            },
        }
    }
}

fn tmerc_kernel(op: &Op, d: Direction, c: &mut [Coord]) {
    let e = op_ellps(op);
    let lat_0 = slot(op.params.lat(0)).to_radians();
    let lon_0 = slot(op.params.lon(0)).to_radians();
    let x_0 = slot(op.params.x(0));
    let y_0 = slot(op.params.y(0));
    let k_0 = slot(op.params.k(0));
    let conf_fwd = fourier(e.n, &GEO_TO_CONF);
    let conf_inv = fourier(e.n, &CONF_TO_GEO);
    let tm_fwd = fourier(e.n, &TM_FWD);
    let tm_inv = fourier(e.n, &TM_INV);
    let qs = k_0 * e.arc_unit();
    let z = lat_0 + sum_sin(2.0 * lat_0, &conf_fwd);
    let zb = y_0 - qs * (z + sum_sin(2.0 * z, &tm_fwd));
    for p in c.iter_mut() {
        match d {
            Direction::Fwd => {
                let chi = {
                    let phi = p[1] + lat_0;
                    phi + sum_sin(2.0 * phi, &conf_fwd)
                };
                let dl = p[0] - lon_0;
                let (sc, cc) = chi.sin_cos();
                let (sl, cl) = dl.sin_cos();
                let ccl = cc * cl;
                let mut lat = sc.atan2(ccl);
                let mut lon = (sl * cc / sc.hypot(ccl)).asinh();
                let (dr, di) = sum_sin_complex(2.0 * lat, 2.0 * lon, &tm_fwd);
                lat += dr;
                lon += di;
                if lon.abs() > 2.623395162778 {
                    p[0] = f64::NAN;
                    p[1] = f64::NAN;
                    continue;
                }
                p[0] = qs * lon + x_0;
                p[1] = qs * lat + zb;
            },
            Direction::Inv => {
                let mut lon = (p[0] - x_0) / qs;
                let mut lat = (p[1] - zb) / qs;
                if lon.abs() > 2.623395162778 {
                    p[0] = f64::NAN;
                    p[1] = f64::NAN;
                    continue;
                }
                let (dr, di) = sum_sin_complex(2.0 * lat, 2.0 * lon, &tm_inv);
                lat += dr;
                lon += di;
                lon = lon.sinh().atan();
                let (sc, cc) = lat.sin_cos();
                let (sl, cl) = lon.sin_cos();
                let ccl = cc * cl;
                let lon2 = sl.atan2(ccl);
                let lat2 = (sc * cl).atan2(sl.hypot(ccl));
                let lam = {
                    let l = lon2 + lon_0;
                    (l + std::f64::consts::PI).rem_euclid(2.0 * std::f64::consts::PI)
                        - std::f64::consts::PI
                };
                p[0] = lam;
                p[1] = lat2 + sum_sin(2.0 * lat2, &conf_inv);
            },
        }
    }
}

fn btmerc_kernel(op: &Op, d: Direction, c: &mut [Coord]) {
    let e = op_ellps(op);
    let eps = e.es / (1.0 - e.es);
    let lat_0 = slot(op.params.lat(0)).to_radians();
    let lon_0 = slot(op.params.lon(0)).to_radians();
    let x_0 = slot(op.params.x(0));
    let y_0 = slot(op.params.y(0));
    let k_0 = slot(op.params.k(0));
    let rect_fwd = fourier(e.n, &GEO_TO_RECT);
    let rect_inv = fourier(e.n, &RECT_TO_GEO);
    let arc = e.arc_unit();
    let prime_vertical = |phi: f64| e.a / (1.0 - e.es * phi.sin().powi(2)).sqrt();
    for p in c.iter_mut() {
        match d {
            Direction::Fwd => {
                let lat = p[1] + lat_0;
                let (s, co) = lat.sin_cos();
                let cc = co * co;
                let ss = s * s;
                let dlon = p[0] - lon_0;
                let oo = dlon * dlon;
                let nr = prime_vertical(lat);
                let z = eps * dlon.powi(3) * co.powi(5) / 6.0;
                let sd2 = (dlon / 2.0).sin();
                let theta_2 = (2.0 * s * co * sd2 * sd2).atan2(ss + cc * dlon.cos());
                let sd = dlon.sin();
                p[0] = x_0 + k_0 * nr * ((co * sd).atanh() + z * (1.0 + oo * (36.0 * cc - 29.0)
                    / 10.0));
                let m = arc * (lat + sum_sin(2.0 * lat, &rect_fwd));
                let znos4 = z * nr * dlon * s / 4.0;
                let ecc = 4.0 * eps * cc;
                p[1] = y_0 + k_0 * (m + nr * theta_2 + znos4 * (9.0 + ecc + oo * (20.0 * cc
                    - 11.0)));
            },
            Direction::Inv => {
                let mu = (p[1] - y_0) / k_0 / arc;
                let lat = mu + sum_sin(2.0 * mu, &rect_inv);
                let t = lat.tan();
                let co = lat.cos();
                let cc = co * co;
                let nr = prime_vertical(lat);
                let x = (p[0] - x_0) / (k_0 * nr);
                let xx = x * x;
                let theta_4 = x.sinh().atan2(co);
                let theta_5 = (t * theta_4.cos()).atan();
                let xet = xx * xx * eps * t / 24.0;
                p[1] = lat_0 + (1.0 + cc * eps) * (theta_5 - xet * (9.0 - 10.0 * cc)) - eps * cc
                    * lat;
                let approx = lon_0 + theta_4;
                let coef = eps / 60.0 * xx * x * co;
                p[0] = approx - coef * (10.0 - 4.0 * xx / cc + xx * cc);
            },
        }
    }
}

/// The equal-area auxiliary: q as a function of the latitude's sine.
fn qs(sinphi: f64, e: f64) -> f64 {
    let es = e * e;
    (1.0 - es) * (sinphi / (1.0 - es * sinphi * sinphi) - (1.0 / (2.0 * e)) * ((1.0 - e * sinphi)
        / (1.0 + e * sinphi)).ln())
}

/// Geographic latitude from the authalic latitude, by Newton iteration.
fn authalic_to_geographic(xi: f64, e: f64) -> f64 {
    let es = e * e;
    let q_target = qs(1.0, e) * xi.sin();
    let mut phi = xi;
    for _ in 0..12 {
        let s = phi.sin();
        let q = qs(s, e);
        let dq = 2.0 * (1.0 - es) * phi.cos() / (1.0 - es * s * s).powi(2);
        if dq.abs() < 1e-30 {
            break;
        }
        phi += (q_target - q) / dq;
    }
    phi
}

fn laea_kernel(op: &Op, d: Direction, c: &mut [Coord]) {
    let el = op_ellps(op);
    let lat_0 = slot(op.params.lat(0)).to_radians();
    let lon_0 = slot(op.params.lon(0)).to_radians();
    let x_0 = slot(op.params.x(0));
    let y_0 = slot(op.params.y(0));
    let q0 = qs(lat_0.sin(), el.e);
    let qp = qs(1.0, el.e);
    let xi_0 = (q0 / qp).asin();
    let rq = el.a * (0.5 * qp).sqrt();
    let polar = (lat_0.abs() - std::f64::consts::FRAC_PI_2).abs() < 1e-10;
    let north = polar && lat_0 > 0.0;
    let oblique = !polar && lat_0.abs() > 1e-10;
    let dd = if oblique {
        el.a * (lat_0.cos() / (1.0 - el.es * lat_0.sin().powi(2)).sqrt()) / (rq * xi_0.cos())
    } else if polar {
        el.a
    } else {
        rq.recip()
    };
    let (sin_xi0, cos_xi0) = xi_0.sin_cos();
    for p in c.iter_mut() {
        match d {
            Direction::Fwd if polar => {
                let sign = if north { -1.0 } else { 1.0 };
                let (sl, cl) = (p[0] - lon_0).sin_cos();
                let q = qs(p[1].sin(), el.e);
                let rho = el.a * (qp + sign * q).sqrt();
                p[0] = x_0 + rho * sl;
                p[1] = y_0 + sign * rho * cl;
            },
            Direction::Inv if polar => {
                let sign = if north { -1.0 } else { 1.0 };
                let x = p[0];
                let y = p[1];
                let rho = (x - x_0).hypot(y - y_0);
                let denom = el.a * el.a * (1.0 - ((1.0 - el.es) / (2.0 * el.e)) * ((1.0 - el.e)
                    / (1.0 + el.e)).ln());
                let xi = (-sign) * (1.0 - rho * rho / denom);
                p[0] = lon_0 + (x - x_0).atan2(sign * (y - y_0));
                p[1] = authalic_to_geographic(xi.asin(), el.e);
            },
            Direction::Fwd => {
                let (sl, cl) = (p[0] - lon_0).sin_cos();
                let xi = (qs(p[1].sin(), el.e) / qp).asin();
                let (sx, cx) = xi.sin_cos();
                let b = if oblique {
                    let factor = 1.0 + sin_xi0 * sx + cos_xi0 * cx * cl;
                    rq * (2.0 / factor).sqrt()
                } else {
                    1.0
                };
                p[0] = x_0 + (b * dd) * (cx * sl);
                p[1] = y_0 + (b / dd) * (cos_xi0 * sx - sin_xi0 * cx * cl);
            },
            Direction::Inv => {
                let x = p[0];
                let y = p[1];
                let rho = ((x - x_0) / dd).hypot(dd * (y - y_0));
                if rho < 1e-10 {
                    p[0] = 0.0;
                    p[1] = lat_0;
                    continue;
                }
                let asin_argument = 0.5 * rho / rq;
                if asin_argument.abs() > 1.0 {
                    // Out of the projection's domain: mark the point.
                    p[0] = f64::NAN;
                    p[1] = f64::NAN;
                    continue;
                }
                let ce = 2.0 * asin_argument.asin();
                let (sin_c, cos_c) = ce.sin_cos();
                let xi = (cos_c * sin_xi0 + (dd * (y - y_0) * sin_c * cos_xi0) / rho).asin();
                p[1] = authalic_to_geographic(xi, el.e);
                let num = (x - x_0) * sin_c;
                let denom = dd * rho * cos_xi0 * cos_c - dd * dd * (y - y_0) * sin_xi0 * sin_c;
                p[0] = num.atan2(denom) + lon_0;
            },
        }
    }
}

fn leaf_kernel(op: &Op, d: Direction, c: &mut [Coord]) {
    match op.params.name.as_str() {
        "cart" => cart_kernel(op, d, c),
        "helmert" => helmert_kernel(op, d, c),
        "tmerc" | "utm" => tmerc_kernel(op, d, c),
        "btmerc" | "butm" => btmerc_kernel(op, d, c),
        "laea" => laea_kernel(op, d, c),
        "noop" => {},
        other => panic!("no kernel for {}", other),
    }
}

fn apply(op: &Op, d: Direction, c: &mut [Coord]) {
    if op.steps.is_empty() {
        let eff = if op.descriptor.inverted {
            match d {
                Direction::Fwd => Direction::Inv,
                Direction::Inv => Direction::Fwd,
            }
        } else {
            d
        };
        leaf_kernel(op, eff, c);
    } else {
        for (i, eff) in op.application_plan(d) {
            leaf_kernel(&op.steps[i], eff, c);
        }
    }
}

// ----- The scenarios ------------------------------------------------------

fn utm32_points() -> ([Coord; 4], [Coord; 4]) {
    let geo_pts = [
        geo(55., 12., 0., 0.),
        geo(-55., 12., 0., 0.),
        geo(55., -6., 0., 0.),
        geo(-55., -6., 0., 0.),
    ];
    let projected = [
        raw(691_875.632_139_661, 6_098_907.825_005_012, 0., 0.),
        raw(691_875.632_139_661, -6_098_907.825_005_012, 0., 0.),
        raw(-455_673.814_189_040, 6_198_246.671_090_279, 0., 0.),
        raw(-455_673.814_189_040, -6_198_246.671_090_279, 0., 0.),
    ];
    (geo_pts, projected)
}

#[test]
fn tmerc() {
    let mut ctx = Context::new();
    let definition = "tmerc k_0:0.9996 lon_0:9 x_0:500000";
    let h = ctx.op(definition).unwrap();
    let op = ctx.get_op(h);

    let (geo_pts, projected) = utm32_points();
    let mut operands = geo_pts.clone();
    apply(op, Direction::Fwd, &mut operands);
    for i in 0..operands.len() {
        assert!(
            hypot2(&operands[i], &projected[i]) < 1e-6,
            "fwd {} off by {}",
            i,
            hypot2(&operands[i], &projected[i])
        );
    }

    apply(op, Direction::Inv, &mut operands);
    for i in 0..operands.len() {
        assert!(hypot2(&operands[i], &geo_pts[i]) < 5e-6);
    }
}

#[test]
fn utm() {
    let mut ctx = Context::new();
    let h = ctx.op("utm zone:32").unwrap();
    let op = ctx.get_op(h);

    let (geo_pts, projected) = utm32_points();
    let mut operands = geo_pts.clone();
    apply(op, Direction::Fwd, &mut operands);
    for i in 0..operands.len() {
        assert!(hypot2(&operands[i], &projected[i]) < 5e-3);
    }

    apply(op, Direction::Inv, &mut operands);
    for i in 0..operands.len() {
        assert!(hypot2(&operands[i], &geo_pts[i]) < 10e-8);
    }
}

#[test]
fn btmerc() {
    let mut ctx = Context::new();
    let h = ctx.op("btmerc k_0:0.9996 lon_0:9 x_0:500000").unwrap();
    let op = ctx.get_op(h);

    let (geo_pts, projected) = utm32_points();
    let mut operands = geo_pts.clone();
    apply(op, Direction::Fwd, &mut operands);
    for i in 0..operands.len() {
        assert!(hypot2(&operands[i], &projected[i]) < 5e-3);
    }

    apply(op, Direction::Inv, &mut operands);
    for i in 0..operands.len() {
        assert!(hypot2(&operands[i], &geo_pts[i]) < 10e-8);
    }
}

#[test]
fn butm() {
    let mut ctx = Context::new();
    let h = ctx.op("butm zone:32").unwrap();
    let op = ctx.get_op(h);

    let (geo_pts, projected) = utm32_points();
    let mut operands = geo_pts.clone();
    apply(op, Direction::Fwd, &mut operands);
    for i in 0..operands.len() {
        assert!(hypot2(&operands[i], &projected[i]) < 5e-3);
    }

    apply(op, Direction::Inv, &mut operands);
    for i in 0..operands.len() {
        assert!(hypot2(&operands[i], &geo_pts[i]) < 10e-8);
    }
}

#[test]
fn laea_oblique() {
    let mut ctx = Context::new();

    // ETRS-LAEA grid definition
    let h = ctx
        .op("laea ellps:GRS80 lat_0:52 lon_0:10 x_0:4321000 y_0:3210000")
        .unwrap();
    let op = ctx.get_op(h);

    // The test point from the EPSG guidance notes
    let p = geo(50.0, 5.0, 0.0, 0.0);
    let mut operands = [p];

    apply(op, Direction::Fwd, &mut operands);
    assert!((operands[0][0] - 3962799.45).abs() < 0.01);
    assert!((operands[0][1] - 2999718.85).abs() < 0.01);

    apply(op, Direction::Inv, &mut operands);
    assert!((operands[0][0].to_degrees() - 5.0).abs() < 1e-12);
    assert!((operands[0][1].to_degrees() - 50.).abs() < 1e-12);
}

#[test]
fn cart_helmert_roundtrip() {
    let mut ctx = Context::new();
    let h = ctx
        .op("cart ellps:intl | helmert dx:-87 dy:-96 dz:-120 | cart inv ellps:GRS80")
        .unwrap();
    let op = ctx.get_op(h);

    let copenhagen = geo(55., 12., 0., 0.);
    let mut operands = [copenhagen];
    apply(op, Direction::Inv, &mut operands);
    // The ED50 representation differs from the original point...
    assert!(hypot2(&operands[0], &copenhagen) > 1e-6);
    // ...and the forward application recovers it.
    apply(op, Direction::Fwd, &mut operands);
    assert!(hypot2(&operands[0], &copenhagen) < 1e-9);
    assert!(operands[0][2].abs() < 1e-4);
}

/// The block form of a pipeline, reduced to canonical steps with the help
/// of the YAML reader, builds the same operator as the shorthand, and the
/// two produce indistinguishable output.
#[test]
fn gys() {
    let mut ctx = Context::new();

    // A pipeline in YAML
    let pipeline = "ed50_etrs89: {
        # with cucumbers
        steps: [
            cart: {ellps: intl},
            helmert: {x: -87, y: -96, z: -120},
            cart: {inv: true, ellps: GRS80}
        ]
    }";

    // Same pipeline in shorthand, with comment lines and inline comments
    let gys_def = "# bla bla\n\n   cart ellps: intl # a comment ending at newline\n | helmert x:-87 y:-96 z:-120 # another one\n | cart inv ellps:GRS80";

    // Read the block form with the YAML reader and render it through the
    // library's verified conversion.
    let docs = yaml_rust::YamlLoader::load_from_str(pipeline).unwrap();
    let (_, body) = docs[0].as_hash().unwrap().iter().next().unwrap();
    let steps = body["steps"].as_vec().unwrap();
    let mut block_steps: Vec<geodesy::BlockStep> = Vec::new();
    for step in steps {
        let hash = step.as_hash().unwrap();
        let (name, args) = hash.iter().next().unwrap();
        let mut bs = geodesy::BlockStep {
            name: String::from(name.as_str().unwrap()),
            args: Vec::new(),
        };
        for (k, v) in args.as_hash().unwrap() {
            let value = match v {
                yaml_rust::Yaml::Integer(i) => geodesy::BlockValue::Integer(*i),
                yaml_rust::Yaml::Real(r) => geodesy::BlockValue::Real(r.clone()),
                yaml_rust::Yaml::Boolean(b) => geodesy::BlockValue::Boolean(*b),
                yaml_rust::Yaml::String(s) => geodesy::BlockValue::Text(s.clone()),
                _ => continue,
            };
            bs.args.push((String::from(k.as_str().unwrap()), value));
        }
        block_steps.push(bs);
    }
    let block_as_gys = geodesy::block_steps_to_gys(&block_steps);

    let op_yaml = ctx.op(&block_as_gys).unwrap();
    let op_gys = ctx.op(gys_def).unwrap();

    let copenhagen = geo(55., 12., 0., 0.);
    let stockholm = geo(59., 18., 0., 0.);
    let mut yaml_data = [copenhagen, stockholm];
    let mut gys_data = [copenhagen, stockholm];

    apply(ctx.get_op(op_yaml), Direction::Fwd, &mut yaml_data);
    apply(ctx.get_op(op_gys), Direction::Fwd, &mut gys_data);

    // ...so the difference is exactly zero.
    assert!(hypot3(&yaml_data[0], &gys_data[0]) < 1e-30);
    assert!(hypot3(&yaml_data[1], &gys_data[1]) < 1e-30);
}
