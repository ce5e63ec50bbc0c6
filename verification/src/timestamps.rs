//! Timestamps: the Unix-seconds strings runs record and the ISO-8601 UTC
//! strings case versions record, rendered without a date-time dependency.

use vstd::prelude::*;

use crate::text::{decimal, padded, push_char, push_decimal, push_padded};

verus! {

/// Whether `y` is a leap year of the proleptic Gregorian calendar.
pub open spec fn is_leap(y: int) -> bool {
    (y % 4 == 0 && y % 100 != 0) || y % 400 == 0
}

/// The number of days in year `y`.
pub open spec fn year_days(y: int) -> nat {
    if is_leap(y) { 366 } else { 365 }
}

/// The number of days in month `m` (1–12) of year `y`.
pub open spec fn month_days(y: int, m: int) -> nat {
    if m == 2 {
        if is_leap(y) { 29 } else { 28 }
    } else if m == 4 || m == 6 || m == 9 || m == 11 {
        30
    } else {
        31
    }
}

/// The month and day `d` days after the first day of month `m` of year `y`.
pub open spec fn civil_in_year(d: nat, y: int, m: int) -> (int, int, int)
    decreases 12 - m,
{
    if m >= 12 || d < month_days(y, m) {
        (y, m, d as int + 1)
    } else {
        civil_in_year((d - month_days(y, m)) as nat, y, m + 1)
    }
}

/// The date `d` days after January 1 of year `y`.
pub open spec fn civil_from(d: nat, y: int) -> (int, int, int)
    decreases d,
{
    if d < year_days(y) {
        civil_in_year(d, y, 1)
    } else {
        civil_from((d - year_days(y)) as nat, y + 1)
    }
}

/// The calendar date (year, month, day) `days` days after 1970-01-01.
pub open spec fn civil(days: nat) -> (int, int, int) {
    civil_from(days, 1970)
}

/// The number of days in the `n` years starting with year `y`.
pub open spec fn span(y: int, n: nat) -> nat
    decreases n,
{
    if n == 0 { 0 } else { year_days(y) + span(y + 1, (n - 1) as nat) }
}

/// The ISO-8601 UTC rendering of `seconds` since the Unix epoch.
pub open spec fn iso8601(seconds: nat) -> Seq<char> {
    let (y, m, d) = civil(seconds / 86400);
    let rem = seconds % 86400;
    padded(y as nat, 4) + seq!['-'] + padded(m as nat, 2) + seq!['-'] + padded(d as nat, 2) + seq!['T']
        + padded(rem / 3600, 2) + seq![':'] + padded((rem % 3600) / 60, 2) + seq![':'] + padded(rem % 60, 2)
        + seq!['Z']
}

proof fn lemma_skip_years(d: nat, y: int, n: nat)
    ensures
        civil_from(d + span(y, n), y) == civil_from(d, y + n),
    decreases n,
{
    if n > 0 {
        lemma_skip_years(d, y + 1, (n - 1) as nat);
        assert(d + span(y, n) >= year_days(y));
        assert((d + span(y, n) - year_days(y)) as nat == d + span(y + 1, (n - 1) as nat));
    }
}

proof fn lemma_span_extend(y: int, n: nat)
    ensures
        span(y, n + 1) == span(y, n) + year_days(y + n),
    decreases n,
{
    if n > 0 {
        lemma_span_extend(y + 1, (n - 1) as nat);
        assert(span(y, n + 1) == year_days(y) + span(y + 1, n));
        assert(span(y, n) == year_days(y) + span(y + 1, (n - 1) as nat));
        assert(y + 1 + (n - 1) == y + n);
    } else {
        assert(span(y + 1, 0) == 0);
        assert(span(y, 1) == year_days(y) + span(y + 1, 0));
    }
}

proof fn lemma_span_period(y: int, n: nat)
    ensures
        span(y + 400, n) == span(y, n),
    decreases n,
{
    if n > 0 {
        assert(is_leap(y + 400) == is_leap(y));
        lemma_span_period(y + 1, (n - 1) as nat);
    }
}

proof fn lemma_span_cycle(c: nat)
    ensures
        span(1970 + 400 * (c as int), 400) == 146097,
    decreases c,
{
    if c == 0 {
        lemma_span_base();
    } else {
        lemma_span_cycle((c - 1) as nat);
        lemma_span_period(1970 + 400 * ((c - 1) as int), 400);
        assert(1970 + 400 * (c - 1) + 400 == 1970 + 400 * c);
    }
}

proof fn lemma_span_base()
    ensures
        span(1970, 400) == 146097,
{
    assert(span(2370, 0) == 0);
        assert(span(2369, 1) == 365);
        assert(span(2368, 2) == 731);
        assert(span(2367, 3) == 1096);
        assert(span(2366, 4) == 1461);
        assert(span(2365, 5) == 1826);
        assert(span(2364, 6) == 2192);
        assert(span(2363, 7) == 2557);
        assert(span(2362, 8) == 2922);
        assert(span(2361, 9) == 3287);
        assert(span(2360, 10) == 3653);
        assert(span(2359, 11) == 4018);
        assert(span(2358, 12) == 4383);
        assert(span(2357, 13) == 4748);
        assert(span(2356, 14) == 5114);
        assert(span(2355, 15) == 5479);
        assert(span(2354, 16) == 5844);
        assert(span(2353, 17) == 6209);
        assert(span(2352, 18) == 6575);
        assert(span(2351, 19) == 6940);
        assert(span(2350, 20) == 7305);
        assert(span(2349, 21) == 7670);
        assert(span(2348, 22) == 8036);
        assert(span(2347, 23) == 8401);
        assert(span(2346, 24) == 8766);
        assert(span(2345, 25) == 9131);
        assert(span(2344, 26) == 9497);
        assert(span(2343, 27) == 9862);
        assert(span(2342, 28) == 10227);
        assert(span(2341, 29) == 10592);
        assert(span(2340, 30) == 10958);
        assert(span(2339, 31) == 11323);
        assert(span(2338, 32) == 11688);
        assert(span(2337, 33) == 12053);
        assert(span(2336, 34) == 12419);
        assert(span(2335, 35) == 12784);
        assert(span(2334, 36) == 13149);
        assert(span(2333, 37) == 13514);
        assert(span(2332, 38) == 13880);
        assert(span(2331, 39) == 14245);
        assert(span(2330, 40) == 14610);
        assert(span(2329, 41) == 14975);
        assert(span(2328, 42) == 15341);
        assert(span(2327, 43) == 15706);
        assert(span(2326, 44) == 16071);
        assert(span(2325, 45) == 16436);
        assert(span(2324, 46) == 16802);
        assert(span(2323, 47) == 17167);
        assert(span(2322, 48) == 17532);
        assert(span(2321, 49) == 17897);
        assert(span(2320, 50) == 18263);
        assert(span(2319, 51) == 18628);
        assert(span(2318, 52) == 18993);
        assert(span(2317, 53) == 19358);
        assert(span(2316, 54) == 19724);
        assert(span(2315, 55) == 20089);
        assert(span(2314, 56) == 20454);
        assert(span(2313, 57) == 20819);
        assert(span(2312, 58) == 21185);
        assert(span(2311, 59) == 21550);
        assert(span(2310, 60) == 21915);
        assert(span(2309, 61) == 22280);
        assert(span(2308, 62) == 22646);
        assert(span(2307, 63) == 23011);
        assert(span(2306, 64) == 23376);
        assert(span(2305, 65) == 23741);
        assert(span(2304, 66) == 24107);
        assert(span(2303, 67) == 24472);
        assert(span(2302, 68) == 24837);
        assert(span(2301, 69) == 25202);
        assert(span(2300, 70) == 25567);
        assert(span(2299, 71) == 25932);
        assert(span(2298, 72) == 26297);
        assert(span(2297, 73) == 26662);
        assert(span(2296, 74) == 27028);
        assert(span(2295, 75) == 27393);
        assert(span(2294, 76) == 27758);
        assert(span(2293, 77) == 28123);
        assert(span(2292, 78) == 28489);
        assert(span(2291, 79) == 28854);
        assert(span(2290, 80) == 29219);
        assert(span(2289, 81) == 29584);
        assert(span(2288, 82) == 29950);
        assert(span(2287, 83) == 30315);
        assert(span(2286, 84) == 30680);
        assert(span(2285, 85) == 31045);
        assert(span(2284, 86) == 31411);
        assert(span(2283, 87) == 31776);
        assert(span(2282, 88) == 32141);
        assert(span(2281, 89) == 32506);
        assert(span(2280, 90) == 32872);
        assert(span(2279, 91) == 33237);
        assert(span(2278, 92) == 33602);
        assert(span(2277, 93) == 33967);
        assert(span(2276, 94) == 34333);
        assert(span(2275, 95) == 34698);
        assert(span(2274, 96) == 35063);
        assert(span(2273, 97) == 35428);
        assert(span(2272, 98) == 35794);
        assert(span(2271, 99) == 36159);
        assert(span(2270, 100) == 36524);
        assert(span(2269, 101) == 36889);
        assert(span(2268, 102) == 37255);
        assert(span(2267, 103) == 37620);
        assert(span(2266, 104) == 37985);
        assert(span(2265, 105) == 38350);
        assert(span(2264, 106) == 38716);
        assert(span(2263, 107) == 39081);
        assert(span(2262, 108) == 39446);
        assert(span(2261, 109) == 39811);
        assert(span(2260, 110) == 40177);
        assert(span(2259, 111) == 40542);
        assert(span(2258, 112) == 40907);
        assert(span(2257, 113) == 41272);
        assert(span(2256, 114) == 41638);
        assert(span(2255, 115) == 42003);
        assert(span(2254, 116) == 42368);
        assert(span(2253, 117) == 42733);
        assert(span(2252, 118) == 43099);
        assert(span(2251, 119) == 43464);
        assert(span(2250, 120) == 43829);
        assert(span(2249, 121) == 44194);
        assert(span(2248, 122) == 44560);
        assert(span(2247, 123) == 44925);
        assert(span(2246, 124) == 45290);
        assert(span(2245, 125) == 45655);
        assert(span(2244, 126) == 46021);
        assert(span(2243, 127) == 46386);
        assert(span(2242, 128) == 46751);
        assert(span(2241, 129) == 47116);
        assert(span(2240, 130) == 47482);
        assert(span(2239, 131) == 47847);
        assert(span(2238, 132) == 48212);
        assert(span(2237, 133) == 48577);
        assert(span(2236, 134) == 48943);
        assert(span(2235, 135) == 49308);
        assert(span(2234, 136) == 49673);
        assert(span(2233, 137) == 50038);
        assert(span(2232, 138) == 50404);
        assert(span(2231, 139) == 50769);
        assert(span(2230, 140) == 51134);
        assert(span(2229, 141) == 51499);
        assert(span(2228, 142) == 51865);
        assert(span(2227, 143) == 52230);
        assert(span(2226, 144) == 52595);
        assert(span(2225, 145) == 52960);
        assert(span(2224, 146) == 53326);
        assert(span(2223, 147) == 53691);
        assert(span(2222, 148) == 54056);
        assert(span(2221, 149) == 54421);
        assert(span(2220, 150) == 54787);
        assert(span(2219, 151) == 55152);
        assert(span(2218, 152) == 55517);
        assert(span(2217, 153) == 55882);
        assert(span(2216, 154) == 56248);
        assert(span(2215, 155) == 56613);
        assert(span(2214, 156) == 56978);
        assert(span(2213, 157) == 57343);
        assert(span(2212, 158) == 57709);
        assert(span(2211, 159) == 58074);
        assert(span(2210, 160) == 58439);
        assert(span(2209, 161) == 58804);
        assert(span(2208, 162) == 59170);
        assert(span(2207, 163) == 59535);
        assert(span(2206, 164) == 59900);
        assert(span(2205, 165) == 60265);
        assert(span(2204, 166) == 60631);
        assert(span(2203, 167) == 60996);
        assert(span(2202, 168) == 61361);
        assert(span(2201, 169) == 61726);
        assert(span(2200, 170) == 62091);
        assert(span(2199, 171) == 62456);
        assert(span(2198, 172) == 62821);
        assert(span(2197, 173) == 63186);
        assert(span(2196, 174) == 63552);
        assert(span(2195, 175) == 63917);
        assert(span(2194, 176) == 64282);
        assert(span(2193, 177) == 64647);
        assert(span(2192, 178) == 65013);
        assert(span(2191, 179) == 65378);
        assert(span(2190, 180) == 65743);
        assert(span(2189, 181) == 66108);
        assert(span(2188, 182) == 66474);
        assert(span(2187, 183) == 66839);
        assert(span(2186, 184) == 67204);
        assert(span(2185, 185) == 67569);
        assert(span(2184, 186) == 67935);
        assert(span(2183, 187) == 68300);
        assert(span(2182, 188) == 68665);
        assert(span(2181, 189) == 69030);
        assert(span(2180, 190) == 69396);
        assert(span(2179, 191) == 69761);
        assert(span(2178, 192) == 70126);
        assert(span(2177, 193) == 70491);
        assert(span(2176, 194) == 70857);
        assert(span(2175, 195) == 71222);
        assert(span(2174, 196) == 71587);
        assert(span(2173, 197) == 71952);
        assert(span(2172, 198) == 72318);
        assert(span(2171, 199) == 72683);
        assert(span(2170, 200) == 73048);
        assert(span(2169, 201) == 73413);
        assert(span(2168, 202) == 73779);
        assert(span(2167, 203) == 74144);
        assert(span(2166, 204) == 74509);
        assert(span(2165, 205) == 74874);
        assert(span(2164, 206) == 75240);
        assert(span(2163, 207) == 75605);
        assert(span(2162, 208) == 75970);
        assert(span(2161, 209) == 76335);
        assert(span(2160, 210) == 76701);
        assert(span(2159, 211) == 77066);
        assert(span(2158, 212) == 77431);
        assert(span(2157, 213) == 77796);
        assert(span(2156, 214) == 78162);
        assert(span(2155, 215) == 78527);
        assert(span(2154, 216) == 78892);
        assert(span(2153, 217) == 79257);
        assert(span(2152, 218) == 79623);
        assert(span(2151, 219) == 79988);
        assert(span(2150, 220) == 80353);
        assert(span(2149, 221) == 80718);
        assert(span(2148, 222) == 81084);
        assert(span(2147, 223) == 81449);
        assert(span(2146, 224) == 81814);
        assert(span(2145, 225) == 82179);
        assert(span(2144, 226) == 82545);
        assert(span(2143, 227) == 82910);
        assert(span(2142, 228) == 83275);
        assert(span(2141, 229) == 83640);
        assert(span(2140, 230) == 84006);
        assert(span(2139, 231) == 84371);
        assert(span(2138, 232) == 84736);
        assert(span(2137, 233) == 85101);
        assert(span(2136, 234) == 85467);
        assert(span(2135, 235) == 85832);
        assert(span(2134, 236) == 86197);
        assert(span(2133, 237) == 86562);
        assert(span(2132, 238) == 86928);
        assert(span(2131, 239) == 87293);
        assert(span(2130, 240) == 87658);
        assert(span(2129, 241) == 88023);
        assert(span(2128, 242) == 88389);
        assert(span(2127, 243) == 88754);
        assert(span(2126, 244) == 89119);
        assert(span(2125, 245) == 89484);
        assert(span(2124, 246) == 89850);
        assert(span(2123, 247) == 90215);
        assert(span(2122, 248) == 90580);
        assert(span(2121, 249) == 90945);
        assert(span(2120, 250) == 91311);
        assert(span(2119, 251) == 91676);
        assert(span(2118, 252) == 92041);
        assert(span(2117, 253) == 92406);
        assert(span(2116, 254) == 92772);
        assert(span(2115, 255) == 93137);
        assert(span(2114, 256) == 93502);
        assert(span(2113, 257) == 93867);
        assert(span(2112, 258) == 94233);
        assert(span(2111, 259) == 94598);
        assert(span(2110, 260) == 94963);
        assert(span(2109, 261) == 95328);
        assert(span(2108, 262) == 95694);
        assert(span(2107, 263) == 96059);
        assert(span(2106, 264) == 96424);
        assert(span(2105, 265) == 96789);
        assert(span(2104, 266) == 97155);
        assert(span(2103, 267) == 97520);
        assert(span(2102, 268) == 97885);
        assert(span(2101, 269) == 98250);
        assert(span(2100, 270) == 98615);
        assert(span(2099, 271) == 98980);
        assert(span(2098, 272) == 99345);
        assert(span(2097, 273) == 99710);
        assert(span(2096, 274) == 100076);
        assert(span(2095, 275) == 100441);
        assert(span(2094, 276) == 100806);
        assert(span(2093, 277) == 101171);
        assert(span(2092, 278) == 101537);
        assert(span(2091, 279) == 101902);
        assert(span(2090, 280) == 102267);
        assert(span(2089, 281) == 102632);
        assert(span(2088, 282) == 102998);
        assert(span(2087, 283) == 103363);
        assert(span(2086, 284) == 103728);
        assert(span(2085, 285) == 104093);
        assert(span(2084, 286) == 104459);
        assert(span(2083, 287) == 104824);
        assert(span(2082, 288) == 105189);
        assert(span(2081, 289) == 105554);
        assert(span(2080, 290) == 105920);
        assert(span(2079, 291) == 106285);
        assert(span(2078, 292) == 106650);
        assert(span(2077, 293) == 107015);
        assert(span(2076, 294) == 107381);
        assert(span(2075, 295) == 107746);
        assert(span(2074, 296) == 108111);
        assert(span(2073, 297) == 108476);
        assert(span(2072, 298) == 108842);
        assert(span(2071, 299) == 109207);
        assert(span(2070, 300) == 109572);
        assert(span(2069, 301) == 109937);
        assert(span(2068, 302) == 110303);
        assert(span(2067, 303) == 110668);
        assert(span(2066, 304) == 111033);
        assert(span(2065, 305) == 111398);
        assert(span(2064, 306) == 111764);
        assert(span(2063, 307) == 112129);
        assert(span(2062, 308) == 112494);
        assert(span(2061, 309) == 112859);
        assert(span(2060, 310) == 113225);
        assert(span(2059, 311) == 113590);
        assert(span(2058, 312) == 113955);
        assert(span(2057, 313) == 114320);
        assert(span(2056, 314) == 114686);
        assert(span(2055, 315) == 115051);
        assert(span(2054, 316) == 115416);
        assert(span(2053, 317) == 115781);
        assert(span(2052, 318) == 116147);
        assert(span(2051, 319) == 116512);
        assert(span(2050, 320) == 116877);
        assert(span(2049, 321) == 117242);
        assert(span(2048, 322) == 117608);
        assert(span(2047, 323) == 117973);
        assert(span(2046, 324) == 118338);
        assert(span(2045, 325) == 118703);
        assert(span(2044, 326) == 119069);
        assert(span(2043, 327) == 119434);
        assert(span(2042, 328) == 119799);
        assert(span(2041, 329) == 120164);
        assert(span(2040, 330) == 120530);
        assert(span(2039, 331) == 120895);
        assert(span(2038, 332) == 121260);
        assert(span(2037, 333) == 121625);
        assert(span(2036, 334) == 121991);
        assert(span(2035, 335) == 122356);
        assert(span(2034, 336) == 122721);
        assert(span(2033, 337) == 123086);
        assert(span(2032, 338) == 123452);
        assert(span(2031, 339) == 123817);
        assert(span(2030, 340) == 124182);
        assert(span(2029, 341) == 124547);
        assert(span(2028, 342) == 124913);
        assert(span(2027, 343) == 125278);
        assert(span(2026, 344) == 125643);
        assert(span(2025, 345) == 126008);
        assert(span(2024, 346) == 126374);
        assert(span(2023, 347) == 126739);
        assert(span(2022, 348) == 127104);
        assert(span(2021, 349) == 127469);
        assert(span(2020, 350) == 127835);
        assert(span(2019, 351) == 128200);
        assert(span(2018, 352) == 128565);
        assert(span(2017, 353) == 128930);
        assert(span(2016, 354) == 129296);
        assert(span(2015, 355) == 129661);
        assert(span(2014, 356) == 130026);
        assert(span(2013, 357) == 130391);
        assert(span(2012, 358) == 130757);
        assert(span(2011, 359) == 131122);
        assert(span(2010, 360) == 131487);
        assert(span(2009, 361) == 131852);
        assert(span(2008, 362) == 132218);
        assert(span(2007, 363) == 132583);
        assert(span(2006, 364) == 132948);
        assert(span(2005, 365) == 133313);
        assert(span(2004, 366) == 133679);
        assert(span(2003, 367) == 134044);
        assert(span(2002, 368) == 134409);
        assert(span(2001, 369) == 134774);
        assert(span(2000, 370) == 135140);
        assert(span(1999, 371) == 135505);
        assert(span(1998, 372) == 135870);
        assert(span(1997, 373) == 136235);
        assert(span(1996, 374) == 136601);
        assert(span(1995, 375) == 136966);
        assert(span(1994, 376) == 137331);
        assert(span(1993, 377) == 137696);
        assert(span(1992, 378) == 138062);
        assert(span(1991, 379) == 138427);
        assert(span(1990, 380) == 138792);
        assert(span(1989, 381) == 139157);
        assert(span(1988, 382) == 139523);
        assert(span(1987, 383) == 139888);
        assert(span(1986, 384) == 140253);
        assert(span(1985, 385) == 140618);
        assert(span(1984, 386) == 140984);
        assert(span(1983, 387) == 141349);
        assert(span(1982, 388) == 141714);
        assert(span(1981, 389) == 142079);
        assert(span(1980, 390) == 142445);
        assert(span(1979, 391) == 142810);
        assert(span(1978, 392) == 143175);
        assert(span(1977, 393) == 143540);
        assert(span(1976, 394) == 143906);
        assert(span(1975, 395) == 144271);
        assert(span(1974, 396) == 144636);
        assert(span(1973, 397) == 145001);
        assert(span(1972, 398) == 145367);
        assert(span(1971, 399) == 145732);
        assert(span(1970, 400) == 146097);
}

proof fn lemma_skip_cycles(r: nat, c: nat)
    ensures
        civil_from(r + 146097 * c, 1970) == civil_from(r, 1970 + 400 * (c as int)),
    decreases c,
{
    if c > 0 {
        let prev = (c - 1) as nat;
        lemma_skip_cycles(r + 146097, prev);
        assert(r + 146097 + 146097 * prev == r + 146097 * c) by (nonlinear_arith)
            requires prev == c - 1;
        lemma_span_cycle(prev);
        lemma_skip_years(r, 1970 + 400 * (prev as int), 400);
        assert(1970 + 400 * prev + 400 == 1970 + 400 * c) by (nonlinear_arith)
            requires prev == c - 1;
    }
}

/// The calendar date `days` days after 1970-01-01.
pub fn civil_from_days(days: u64) -> (r: (u64, u64, u64))
    ensures
        (r.0 as int, r.1 as int, r.2 as int) == civil(days as nat),
        1 <= r.1 <= 12,
        1 <= r.2,
{
    let cycles = days / 146097;
    let mut rest = days % 146097;
    proof {
        assert(days == rest + 146097 * cycles) by (nonlinear_arith)
            requires cycles == days / 146097, rest == days % 146097;
        lemma_skip_cycles(rest as nat, cycles as nat);
        assert(cycles <= 126272300000000) by (nonlinear_arith)
            requires cycles == days / 146097, days <= u64::MAX;
    }
    let mut year: u64 = 1970 + 400 * cycles;
    let ghost start = year;
    let ghost r0 = rest;
    proof { lemma_span_cycle(cycles as nat); }
    loop
        invariant
            civil(days as nat) == civil_from(rest as nat, year as int),
            start <= year <= start + 400,
            start == 1970 + 400 * cycles,
            cycles <= 126272300000000,
            rest + span(start as int, (year - start) as nat) == r0,
            r0 < 146097,
            span(start as int, 400) == 146097,
        ensures
            civil(days as nat) == civil_from(rest as nat, year as int),
            rest < year_days(year as int),
        decreases rest,
    {
        proof {
            if year - start == 400 {
                assert(false);
            }
        }
        let leap = (year % 4 == 0 && year % 100 != 0) || year % 400 == 0;
        let length: u64 = if leap { 366 } else { 365 };
        assert(length == year_days(year as int));
        if rest < length {
            break;
        }
        proof { lemma_span_extend(start as int, (year - start) as nat); }
        rest = rest - length;
        year = year + 1;
    }
    let mut month: u64 = 1;
    loop
        invariant
            civil(days as nat) == civil_in_year(rest as nat, year as int, month as int),
            1 <= month <= 12,
            rest < 366,
        ensures
            civil(days as nat) == civil_in_year(rest as nat, year as int, month as int),
            1 <= month <= 12,
            month >= 12 || rest < month_days(year as int, month as int),
        decreases 12 - month,
    {
        let leap = (year % 4 == 0 && year % 100 != 0) || year % 400 == 0;
        let length: u64 = if month == 2 {
            if leap { 29 } else { 28 }
        } else if month == 4 || month == 6 || month == 9 || month == 11 {
            30
        } else {
            31
        };
        assert(length == month_days(year as int, month as int));
        if month >= 12 || rest < length {
            break;
        }
        rest = rest - length;
        month = month + 1;
    }
    proof {
        assert(civil_in_year(rest as nat, year as int, month as int) == (year as int, month as int, rest + 1));
    }
    (year, month, rest + 1)
}

/// Renders seconds since the Unix epoch as an ISO-8601 UTC timestamp,
/// `YYYY-MM-DDTHH:MM:SSZ`.
pub fn format_iso8601(seconds: u64) -> (r: String)
    ensures
        r@ == iso8601(seconds as nat),
{
    let days = seconds / 86400;
    let rem = seconds % 86400;
    let (year, month, day) = civil_from_days(days);
    let mut out = String::new();
    push_padded(&mut out, year, 4);
    push_char(&mut out, '-');
    push_padded(&mut out, month, 2);
    push_char(&mut out, '-');
    push_padded(&mut out, day, 2);
    push_char(&mut out, 'T');
    push_padded(&mut out, rem / 3600, 2);
    push_char(&mut out, ':');
    push_padded(&mut out, (rem % 3600) / 60, 2);
    push_char(&mut out, ':');
    push_padded(&mut out, rem % 60, 2);
    push_char(&mut out, 'Z');
    proof {
        let (y, m, d) = civil(seconds as nat / 86400);
        assert(y == year as int && m == month as int && d == day as int);
    }
    assert(out@ =~= iso8601(seconds as nat));
    out
}

/// The calendar-date prefix (`YYYY-MM-DD`) of an instant given as Unix
/// seconds, which is what the summary report's date filters compare against.
pub fn iso8601_date(seconds: u64) -> (r: String)
    ensures
        r@ == iso8601(seconds as nat).take(10),
{
    let full = format_iso8601(seconds);
    let chars = crate::text::chars_of(full.as_str());
    proof { crate::text::lemma_decimal_len(0); }
    assert(iso8601(seconds as nat).len() >= 10) by {
        let (y, m, d) = civil(seconds as nat / 86400);
        lemma_padded_len(y as nat, 4);
        lemma_padded_len(m as nat, 2);
        lemma_padded_len(d as nat, 2);
    }
    let mut out: Vec<char> = Vec::new();
    let mut i: usize = 0;
    while i < 10
        invariant
            i <= 10,
            chars@.len() >= 10,
            out@ == chars@.take(i as int),
        decreases 10 - i,
    {
        out.push(chars[i]);
        assert(chars@.take(i + 1) =~= chars@.take(i as int).push(chars@[i as int]));
        i = i + 1;
    }
    crate::text::string_of(&out)
}

proof fn lemma_padded_len(n: nat, width: nat)
    ensures
        padded(n, width).len() >= width,
{
    crate::text::lemma_decimal_len(n);
}

/// Seconds since the Unix epoch according to the system clock; zero when the
/// clock reads earlier than the epoch.
#[verifier::external_body]
fn now_seconds() -> (r: u64)
{
    std::time::SystemTime::now()
        .duration_since(std::time::UNIX_EPOCH)
        .unwrap_or_default()
        .as_secs()
}

/// Timestamp written into new test runs: Unix seconds rendered as a string.
pub fn current_timestamp_string() -> (r: String)
    ensures
        exists|seconds: u64| r@ == decimal(seconds as nat),
{
    let now = now_seconds();
    let mut out = String::new();
    push_decimal(&mut out, now);
    assert(out@ =~= decimal(now as nat));
    out
}

/// Timestamp recorded as a test case's `lastModified`, in ISO-8601 UTC.
pub fn current_iso8601_timestamp() -> (r: String)
    ensures
        exists|seconds: u64| r@ == iso8601(seconds as nat),
{
    format_iso8601(now_seconds())
}

} // verus!
